//! What a call graph holds, said without the walk: the names within so
//! many calls of the entry, and the calls made from within one call less.

use crate::query::{
    add_node, call_graph_of, calls_from, edge_of, empty_walk, scan_calls, scan_one, traverse,
    visit_level, visit_one, CallGraphView, EdgeView, Walk,
};
use crate::symbol::Symbol;
use crate::text::trimmed;
use vstd::prelude::*;

verus! {

/// Whether one of the symbols is a call of `callee` made from within
/// `caller`.
pub open spec fn has_call(symbols: Seq<Symbol>, caller: Seq<char>, callee: Seq<char>) -> bool {
    exists|k: int|
        0 <= k < symbols.len() && calls_from(#[trigger] symbols[k], caller) && symbols[k].name@
            == callee
}

/// Whether an edge is read off a call made from within `caller`.
pub open spec fn is_edge_from(symbols: Seq<Symbol>, caller: Seq<char>, e: EdgeView) -> bool {
    exists|k: int|
        0 <= k < symbols.len() && calls_from(#[trigger] symbols[k], caller) && edge_of(symbols[k])
            == e
}

/// Whether `name` is within `depth` calls of `start`: it is `start`, or it
/// is called from within a name that is within one call less.
pub open spec fn within(symbols: Seq<Symbol>, start: Seq<char>, name: Seq<char>, depth: nat) -> bool
    decreases depth,
{
    if depth == 0 {
        name == start
    } else {
        within(symbols, start, name, (depth - 1) as nat) || exists|c: Seq<char>|
            within(symbols, start, c, (depth - 1) as nat) && #[trigger] has_call(symbols, c, name)
    }
}

/// What is within fewer calls is within more.
pub proof fn lemma_within_grows(
    symbols: Seq<Symbol>,
    start: Seq<char>,
    name: Seq<char>,
    a: nat,
    b: nat,
)
    requires
        a <= b,
        within(symbols, start, name, a),
    ensures
        within(symbols, start, name, b),
    decreases b,
{
    if a < b {
        lemma_within_grows(symbols, start, name, a, (b - 1) as nat);
    }
}

/// What one more call reaches from within `depth` calls is within
/// `depth + 1` calls.
pub proof fn lemma_within_step(
    symbols: Seq<Symbol>,
    start: Seq<char>,
    c: Seq<char>,
    name: Seq<char>,
    depth: nat,
)
    requires
        within(symbols, start, c, depth),
        has_call(symbols, c, name),
    ensures
        within(symbols, start, name, depth + 1),
{
}

/// What a scan on behalf of `current` adds to a walk: the callees of
/// `current` as nodes, its calls as edges, and its unvisited callees as
/// names for the next level.
pub proof fn lemma_scan_calls_effect(
    all: Seq<Symbol>,
    n: int,
    current: Seq<char>,
    w: Walk,
)
    requires
        0 <= n <= all.len(),
    ensures
        ({
            let prefix = all.take(n);
            let w2 = scan_calls(prefix, current, w);
            &&& w2.visited == w.visited
            &&& forall|x: Seq<char>| #[trigger]
                w2.nodes.contains(x) <==> w.nodes.contains(x) || has_call(prefix, current, x)
            &&& forall|x: Seq<char>| #[trigger]
                w2.next.contains(x) <==> w.next.contains(x) || (has_call(prefix, current, x)
                    && !w.visited.contains(x))
            &&& forall|e: EdgeView| #[trigger]
                w2.edges.contains(e) <==> w.edges.contains(e) || is_edge_from(prefix, current, e)
        }),
    decreases n,
{
    let prefix = all.take(n);
    let w2 = scan_calls(prefix, current, w);
    if n == 0 {
        assert(prefix.len() == 0);
    } else {
        let rest = all.take(n - 1);
        assert(prefix.drop_last() =~= rest);
        let s = prefix.last();
        assert(s == prefix[n - 1]);
        lemma_scan_calls_effect(all, n - 1, current, w);
        let w1 = scan_calls(rest, current, w);
        assert(w2 == scan_one(s, current, w1));
        // calls among the longer prefix are calls among the shorter one or the last
        assert forall|x: Seq<char>|
            has_call(prefix, current, x) <==> has_call(rest, current, x) || (calls_from(s, current)
                && s.name@ == x) by {
            if has_call(prefix, current, x) {
                let k = choose|k: int|
                    0 <= k < prefix.len() && calls_from(#[trigger] prefix[k], current)
                        && prefix[k].name@ == x;
                if k < n - 1 {
                    assert(rest[k] == prefix[k]);
                }
            }
            if has_call(rest, current, x) {
                let k = choose|k: int|
                    0 <= k < rest.len() && calls_from(#[trigger] rest[k], current) && rest[k].name@
                        == x;
                assert(prefix[k] == rest[k]);
            }
        }
        assert forall|e: EdgeView|
            is_edge_from(prefix, current, e) <==> is_edge_from(rest, current, e) || (calls_from(
                s,
                current,
            ) && edge_of(s) == e) by {
            if is_edge_from(prefix, current, e) {
                let k = choose|k: int|
                    0 <= k < prefix.len() && calls_from(#[trigger] prefix[k], current) && edge_of(
                        prefix[k],
                    ) == e;
                if k < n - 1 {
                    assert(rest[k] == prefix[k]);
                }
            }
            if is_edge_from(rest, current, e) {
                let k = choose|k: int|
                    0 <= k < rest.len() && calls_from(#[trigger] rest[k], current) && edge_of(
                        rest[k],
                    ) == e;
                assert(prefix[k] == rest[k]);
            }
        }
        if calls_from(s, current) {
            lemma_contains_add(w1.nodes, s.name@);
            lemma_contains_push(w1.edges, edge_of(s));
            lemma_contains_push(w1.next, s.name@);
        }
    }
}

/// A list with one more element holds that element and what it held.
pub proof fn lemma_contains_push<T>(s: Seq<T>, x: T)
    ensures
        forall|y: T| #[trigger] s.push(x).contains(y) <==> s.contains(y) || y == x,
{
    assert forall|y: T| #[trigger] s.push(x).contains(y) <==> s.contains(y) || y == x by {
        if s.push(x).contains(y) {
            let i = s.push(x).index_of(y);
            if i < s.len() {
                assert(s[i] == y);
            }
        }
        if s.contains(y) {
            let i = s.index_of(y);
            assert(s.push(x)[i] == y);
        }
        assert(s.push(x)[s.len() as int] == x);
    }
}

/// A node list with a name added holds that name and what it held.
pub proof fn lemma_contains_add(nodes: Seq<Seq<char>>, name: Seq<char>)
    ensures
        forall|y: Seq<char>| #[trigger]
            add_node(nodes, name).contains(y) <==> nodes.contains(y) || y == name,
{
    lemma_contains_push(nodes, name);
}

/// Whether `c` stands in the frontier and was not visited before the
/// level began.
pub open spec fn fresh(frontier: Seq<Seq<char>>, visited: Seq<Seq<char>>, c: Seq<char>) -> bool {
    frontier.contains(c) && !visited.contains(c)
}

/// Whether `x` is called from within a fresh name of the frontier.
pub open spec fn called_by_fresh(
    symbols: Seq<Symbol>,
    frontier: Seq<Seq<char>>,
    visited: Seq<Seq<char>>,
    x: Seq<char>,
) -> bool {
    exists|c: Seq<char>| fresh(frontier, visited, c) && #[trigger] has_call(symbols, c, x)
}

/// Whether `e` is read off a call made from within a fresh name of the
/// frontier.
pub open spec fn edge_by_fresh(
    symbols: Seq<Symbol>,
    frontier: Seq<Seq<char>>,
    visited: Seq<Seq<char>>,
    e: EdgeView,
) -> bool {
    exists|c: Seq<char>| fresh(frontier, visited, c) && #[trigger] is_edge_from(symbols, c, e)
}

/// What handling a frontier does to a walk `w`, giving `w2`.
pub open spec fn level_effect(
    symbols: Seq<Symbol>,
    frontier: Seq<Seq<char>>,
    w: Walk,
    w2: Walk,
) -> bool {
    &&& forall|x: Seq<char>| #[trigger]
        w2.visited.contains(x) <==> w.visited.contains(x) || frontier.contains(x)
    &&& forall|x: Seq<char>| #[trigger]
        w2.nodes.contains(x) <==> w.nodes.contains(x) || fresh(frontier, w.visited, x)
            || called_by_fresh(symbols, frontier, w.visited, x)
    &&& forall|e: EdgeView| #[trigger]
        w2.edges.contains(e) <==> w.edges.contains(e) || edge_by_fresh(
            symbols,
            frontier,
            w.visited,
            e,
        )
    &&& forall|x: Seq<char>| #[trigger]
        w2.next.contains(x) ==> w.next.contains(x) || called_by_fresh(
            symbols,
            frontier,
            w.visited,
            x,
        )
    &&& forall|x: Seq<char>|
        w.next.contains(x) || (called_by_fresh(symbols, frontier, w.visited, x)
            && !w2.visited.contains(x)) ==> #[trigger] w2.next.contains(x)
}

/// What handling one name does to a walk.
pub proof fn lemma_visit_one_effect(symbols: Seq<Symbol>, current: Seq<char>, w: Walk)
    ensures
        ({
            let w2 = visit_one(symbols, current, w);
            if w.visited.contains(current) {
                w2 == w
            } else {
                &&& w2.visited == w.visited.push(current)
                &&& forall|x: Seq<char>| #[trigger]
                    w2.nodes.contains(x) <==> w.nodes.contains(x) || x == current || has_call(
                        symbols,
                        current,
                        x,
                    )
                &&& forall|x: Seq<char>| #[trigger]
                    w2.next.contains(x) <==> w.next.contains(x) || (has_call(symbols, current, x)
                        && !w.visited.push(current).contains(x))
                &&& forall|e: EdgeView| #[trigger]
                    w2.edges.contains(e) <==> w.edges.contains(e) || is_edge_from(
                        symbols,
                        current,
                        e,
                    )
            }
        }),
{
    if !w.visited.contains(current) {
        let marked = Walk {
            nodes: add_node(w.nodes, current),
            edges: w.edges,
            visited: w.visited.push(current),
            next: w.next,
        };
        lemma_contains_add(w.nodes, current);
        lemma_scan_calls_effect(symbols, symbols.len() as int, current, marked);
        assert(symbols.take(symbols.len() as int) =~= symbols);
    }
}

/// What handling a whole frontier does to a walk.
pub proof fn lemma_level_effect(symbols: Seq<Symbol>, frontier: Seq<Seq<char>>, w: Walk)
    ensures
        level_effect(symbols, frontier, w, visit_level(symbols, frontier, w)),
    decreases frontier.len(),
{
    let w2 = visit_level(symbols, frontier, w);
    if frontier.len() == 0 {
        assert forall|x: Seq<char>| !frontier.contains(x) by {}
        assert forall|x: Seq<char>| !called_by_fresh(symbols, frontier, w.visited, x) by {}
        assert forall|e: EdgeView| !edge_by_fresh(symbols, frontier, w.visited, e) by {}
    } else {
        let rest = frontier.drop_last();
        let last = frontier.last();
        let w1 = visit_level(symbols, rest, w);
        lemma_level_effect(symbols, rest, w);
        lemma_visit_one_effect(symbols, last, w1);
        lemma_contains_push(rest, last);
        assert(rest.push(last) =~= frontier);
        lemma_contains_push(w1.visited, last);
        let v = w.visited;
        // what is fresh in the longer frontier
        assert forall|c: Seq<char>|
            fresh(frontier, v, c) <==> fresh(rest, v, c) || (c == last && !v.contains(last)) by {}
        assert forall|x: Seq<char>|
            called_by_fresh(symbols, frontier, v, x) <==> called_by_fresh(symbols, rest, v, x) || (
            !v.contains(last) && has_call(symbols, last, x)) by {
            if called_by_fresh(symbols, frontier, v, x) {
                let c = choose|c: Seq<char>|
                    fresh(frontier, v, c) && #[trigger] has_call(symbols, c, x);
                if c != last {
                    assert(fresh(rest, v, c));
                }
            }
            if called_by_fresh(symbols, rest, v, x) {
                let c = choose|c: Seq<char>| fresh(rest, v, c) && #[trigger] has_call(symbols, c, x);
                assert(fresh(frontier, v, c));
            }
            if !v.contains(last) && has_call(symbols, last, x) {
                assert(fresh(frontier, v, last));
            }
        }
        assert forall|e: EdgeView|
            edge_by_fresh(symbols, frontier, v, e) <==> edge_by_fresh(symbols, rest, v, e) || (
            !v.contains(last) && is_edge_from(symbols, last, e)) by {
            if edge_by_fresh(symbols, frontier, v, e) {
                let c = choose|c: Seq<char>|
                    fresh(frontier, v, c) && #[trigger] is_edge_from(symbols, c, e);
                if c != last {
                    assert(fresh(rest, v, c));
                }
            }
            if edge_by_fresh(symbols, rest, v, e) {
                let c = choose|c: Seq<char>|
                    fresh(rest, v, c) && #[trigger] is_edge_from(symbols, c, e);
                assert(fresh(frontier, v, c));
            }
            if !v.contains(last) && is_edge_from(symbols, last, e) {
                assert(fresh(frontier, v, last));
            }
        }
        if w1.visited.contains(last) {
            // `last` was visited before the level or earlier within it
            assert(w2 == w1);
            if !v.contains(last) {
                assert(rest.contains(last));
                assert(fresh(rest, v, last));
                assert forall|x: Seq<char>| has_call(symbols, last, x) implies called_by_fresh(
                    symbols,
                    rest,
                    v,
                    x,
                ) by {}
                assert forall|e: EdgeView| is_edge_from(symbols, last, e) implies edge_by_fresh(
                    symbols,
                    rest,
                    v,
                    e,
                ) by {}
            }
        } else {
            assert(!v.contains(last));
            assert(!rest.contains(last));
        }
    }
}

/// Whether `name` is within fewer than `depth` calls of `start`.
pub open spec fn inside(symbols: Seq<Symbol>, start: Seq<char>, name: Seq<char>, depth: nat) -> bool {
    depth >= 1 && within(symbols, start, name, (depth - 1) as nat)
}

/// Whether `e` is read off a call made from within fewer than `depth`
/// calls of `start`.
pub open spec fn edge_inside(symbols: Seq<Symbol>, start: Seq<char>, e: EdgeView, depth: nat) -> bool {
    exists|c: Seq<char>| inside(symbols, start, c, depth) && #[trigger] is_edge_from(symbols, c, e)
}

/// What holds of a walk from `start` when `level` levels are done and
/// `frontier` is to be handled next: visited is what lies within fewer
/// than `level` calls; the nodes are what lies within `level` calls, once
/// a level is done; the edges are the calls made from within what is
/// visited; and the frontier lies within `level` calls and holds all that
/// is exactly `level` calls away.
pub open spec fn walk_at(
    symbols: Seq<Symbol>,
    start: Seq<char>,
    level: nat,
    w: Walk,
    frontier: Seq<Seq<char>>,
) -> bool {
    &&& forall|x: Seq<char>| #[trigger] w.visited.contains(x) <==> inside(symbols, start, x, level)
    &&& forall|x: Seq<char>| #[trigger]
        frontier.contains(x) ==> within(symbols, start, x, level)
    &&& forall|x: Seq<char>|
        within(symbols, start, x, level) && !inside(symbols, start, x, level)
            ==> #[trigger] frontier.contains(x)
    &&& forall|x: Seq<char>| #[trigger]
        w.nodes.contains(x) <==> level >= 1 && within(symbols, start, x, level)
    &&& forall|e: EdgeView| #[trigger] w.edges.contains(e) <==> edge_inside(symbols, start, e, level)
}

/// What holds of a finished walk of `depth` levels from `start`.
pub open spec fn walk_done(symbols: Seq<Symbol>, start: Seq<char>, depth: nat, w: Walk) -> bool {
    &&& forall|x: Seq<char>| #[trigger]
        w.nodes.contains(x) <==> depth >= 1 && within(symbols, start, x, depth)
    &&& forall|e: EdgeView| #[trigger] w.edges.contains(e) <==> edge_inside(symbols, start, e, depth)
}

/// Where nothing is exactly `level` calls away, nothing is farther away
/// either.
pub proof fn lemma_within_settles(
    symbols: Seq<Symbol>,
    start: Seq<char>,
    level: nat,
    more: nat,
    name: Seq<char>,
)
    requires
        level >= 1,
        forall|x: Seq<char>|
            within(symbols, start, x, level) ==> within(symbols, start, x, (level - 1) as nat),
        within(symbols, start, name, level + more),
    ensures
        within(symbols, start, name, (level - 1) as nat),
    decreases more,
{
    if more > 0 {
        let d = (level + more - 1) as nat;
        if within(symbols, start, name, d) {
            lemma_within_settles(symbols, start, level, (more - 1) as nat, name);
        } else {
            let c = choose|c: Seq<char>|
                within(symbols, start, c, d) && #[trigger] has_call(symbols, c, name);
            lemma_within_settles(symbols, start, level, (more - 1) as nat, c);
            lemma_within_step(symbols, start, c, name, (level - 1) as nat);
        }
    }
}

/// One level on: handling the frontier of a walk at `level` gives a walk
/// at `level + 1` with the names collected for the next level as its
/// frontier.
pub proof fn lemma_level_advances(
    symbols: Seq<Symbol>,
    start: Seq<char>,
    level: nat,
    w: Walk,
    frontier: Seq<Seq<char>>,
)
    requires
        walk_at(symbols, start, level, w, frontier),
        w.next.len() == 0,
    ensures
        ({
            let w2 = visit_level(symbols, frontier, w);
            walk_at(symbols, start, level + 1, w2, w2.next)
        }),
{
    let w2 = visit_level(symbols, frontier, w);
    let v = w.visited;
    lemma_level_effect(symbols, frontier, w);
    assert forall|x: Seq<char>| !w.next.contains(x) by {}
    // a name within `level` calls that was not visited is fresh
    assert forall|c: Seq<char>| within(symbols, start, c, level) && !inside(symbols, start, c, level)
        implies fresh(frontier, v, c) by {
        assert(frontier.contains(c));
        assert(!v.contains(c));
    }
    assert forall|c: Seq<char>| fresh(frontier, v, c) implies within(symbols, start, c, level) by {
        assert(frontier.contains(c));
    }
    assert forall|x: Seq<char>| inside(symbols, start, x, level) implies within(
        symbols,
        start,
        x,
        level,
    ) by {
        lemma_within_grows(symbols, start, x, (level - 1) as nat, level);
    }
    // visited
    assert forall|x: Seq<char>| #[trigger]
        w2.visited.contains(x) <==> inside(symbols, start, x, level + 1) by {
        if v.contains(x) {
            assert(inside(symbols, start, x, level));
        }
        if frontier.contains(x) {
            assert(within(symbols, start, x, level));
        }
        if within(symbols, start, x, level) && !inside(symbols, start, x, level) {
            assert(frontier.contains(x));
        }
    }
    // callees of fresh names are one call farther
    assert forall|x: Seq<char>| called_by_fresh(symbols, frontier, v, x) implies within(
        symbols,
        start,
        x,
        level + 1,
    ) by {
        let c = choose|c: Seq<char>| fresh(frontier, v, c) && #[trigger] has_call(symbols, c, x);
        lemma_within_step(symbols, start, c, x, level);
    }
    // what is exactly one call farther is called by a fresh name
    assert forall|x: Seq<char>|
        within(symbols, start, x, level + 1) && !within(symbols, start, x, level)
            implies called_by_fresh(symbols, frontier, v, x) by {
        let c = choose|c: Seq<char>|
            within(symbols, start, c, level) && #[trigger] has_call(symbols, c, x);
        if inside(symbols, start, c, level) {
            lemma_within_step(symbols, start, c, x, (level - 1) as nat);
        }
        assert(fresh(frontier, v, c));
    }
    // nodes
    assert forall|x: Seq<char>| #[trigger]
        w2.nodes.contains(x) <==> within(symbols, start, x, level + 1) by {
        if w.nodes.contains(x) {
            assert(within(symbols, start, x, level));
        }
        if fresh(frontier, v, x) {
            assert(within(symbols, start, x, level));
        }
        if within(symbols, start, x, level) {
            if level >= 1 {
                assert(w.nodes.contains(x));
            } else {
                assert(!inside(symbols, start, x, level));
                assert(fresh(frontier, v, x));
            }
        }
    }
    // edges
    assert forall|e: EdgeView| #[trigger]
        w2.edges.contains(e) <==> edge_inside(symbols, start, e, level + 1) by {
        if w.edges.contains(e) {
            assert(edge_inside(symbols, start, e, level));
            let c = choose|c: Seq<char>|
                inside(symbols, start, c, level) && #[trigger] is_edge_from(symbols, c, e);
            assert(inside(symbols, start, c, level + 1));
        }
        if edge_by_fresh(symbols, frontier, v, e) {
            let c = choose|c: Seq<char>|
                fresh(frontier, v, c) && #[trigger] is_edge_from(symbols, c, e);
            assert(inside(symbols, start, c, level + 1));
        }
        if edge_inside(symbols, start, e, level + 1) {
            let c = choose|c: Seq<char>|
                inside(symbols, start, c, level + 1) && #[trigger] is_edge_from(symbols, c, e);
            if inside(symbols, start, c, level) {
                assert(edge_inside(symbols, start, e, level));
            } else {
                assert(fresh(frontier, v, c));
                assert(edge_by_fresh(symbols, frontier, v, e));
            }
        }
    }
    // the next frontier
    assert forall|x: Seq<char>| #[trigger] w2.next.contains(x) implies within(
        symbols,
        start,
        x,
        level + 1,
    ) by {
        assert(called_by_fresh(symbols, frontier, v, x));
    }
    assert forall|x: Seq<char>|
        within(symbols, start, x, level + 1) && !inside(symbols, start, x, level + 1)
            implies #[trigger] w2.next.contains(x) by {
        assert(called_by_fresh(symbols, frontier, v, x));
        assert(!w2.visited.contains(x));
    }
}

/// A walk at `level` that goes on for at most `more` levels ends as the
/// finished walk of `level + more` levels.
pub proof fn lemma_traverse_reaches(
    symbols: Seq<Symbol>,
    start: Seq<char>,
    level: nat,
    more: nat,
    w: Walk,
    frontier: Seq<Seq<char>>,
)
    requires
        walk_at(symbols, start, level, w, frontier),
    ensures
        walk_done(symbols, start, level + more, traverse(symbols, frontier, w, more)),
    decreases more,
{
    if more == 0 {
    } else if frontier.len() == 0 {
        // nothing is exactly `level` calls away: the walk has settled
        assert forall|x: Seq<char>| !frontier.contains(x) by {}
        assert(within(symbols, start, start, 0));
        if level == 0 {
            assert(!inside(symbols, start, start, 0));
            assert(frontier.contains(start));
        }
        assert forall|x: Seq<char>| within(symbols, start, x, level) implies within(
            symbols,
            start,
            x,
            (level - 1) as nat,
        ) by {
            if !inside(symbols, start, x, level) {
                assert(frontier.contains(x));
            }
        }
        assert forall|x: Seq<char>|
            within(symbols, start, x, level + more) <==> within(symbols, start, x, level) by {
            if within(symbols, start, x, level + more) {
                lemma_within_settles(symbols, start, level, more, x);
                lemma_within_grows(symbols, start, x, (level - 1) as nat, level);
            }
            if within(symbols, start, x, level) {
                lemma_within_grows(symbols, start, x, level, level + more);
            }
        }
        assert forall|x: Seq<char>|
            inside(symbols, start, x, level + more) <==> inside(symbols, start, x, level) by {
            if inside(symbols, start, x, level + more) {
                lemma_within_settles(symbols, start, level, (more - 1) as nat, x);
            }
            if inside(symbols, start, x, level) {
                lemma_within_grows(
                    symbols,
                    start,
                    x,
                    (level - 1) as nat,
                    (level + more - 1) as nat,
                );
            }
        }
        assert forall|e: EdgeView|
            edge_inside(symbols, start, e, level + more) <==> edge_inside(symbols, start, e, level) by {
            if edge_inside(symbols, start, e, level + more) {
                let c = choose|c: Seq<char>|
                    inside(symbols, start, c, level + more) && #[trigger] is_edge_from(
                        symbols,
                        c,
                        e,
                    );
                assert(inside(symbols, start, c, level));
            }
            if edge_inside(symbols, start, e, level) {
                let c = choose|c: Seq<char>|
                    inside(symbols, start, c, level) && #[trigger] is_edge_from(symbols, c, e);
                assert(inside(symbols, start, c, level + more));
            }
        }
    } else {
        let cleared = Walk {
            nodes: w.nodes,
            edges: w.edges,
            visited: w.visited,
            next: Seq::empty(),
        };
        assert(walk_at(symbols, start, level, cleared, frontier));
        lemma_level_advances(symbols, start, level, cleared, frontier);
        let after = visit_level(symbols, frontier, cleared);
        lemma_traverse_reaches(symbols, start, level + 1, (more - 1) as nat, after, after.next);
    }
}

/// Whether `g` holds what a call graph of `entry` with the depth
/// `max_depth` has to hold. For an entry that is not blank, a name is a
/// node exactly when the depth is at least one and the name is within that
/// many calls of the entry; and an edge is in the graph exactly when it is
/// read off a call made from within fewer calls of the entry than the
/// depth. For a blank entry the graph is empty.
pub open spec fn graph_reaches(
    symbols: Seq<Symbol>,
    entry: Seq<char>,
    max_depth: nat,
    g: CallGraphView,
) -> bool {
    let start = trimmed(entry);
    if start.len() == 0 {
        g.nodes.len() == 0 && g.edges.len() == 0
    } else {
        &&& forall|x: Seq<char>| #[trigger]
            g.nodes.contains(x) <==> max_depth >= 1 && within(symbols, start, x, max_depth)
        &&& forall|e: EdgeView| #[trigger]
            g.edges.contains(e) <==> edge_inside(symbols, start, e, max_depth)
    }
}

/// Every call graph holds just what lies within its depth of its entry.
pub proof fn lemma_call_graph_reach(symbols: Seq<Symbol>, entry: Seq<char>, max_depth: nat)
    ensures
        graph_reaches(symbols, entry, max_depth, call_graph_of(symbols, entry, max_depth)),
{
    let start = trimmed(entry);
    if start.len() != 0 {
        let w = empty_walk();
        let frontier = seq![start];
        assert forall|x: Seq<char>| #[trigger] frontier.contains(x) <==> x == start by {
            if x == start {
                assert(frontier[0] == x);
            }
        }
        assert forall|e: EdgeView| !edge_inside(symbols, start, e, 0) by {}
        assert(walk_at(symbols, start, 0, w, frontier));
        lemma_traverse_reaches(symbols, start, 0, max_depth, w, frontier);
    }
}

} // verus!
