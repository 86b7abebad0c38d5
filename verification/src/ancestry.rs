//! What the upward walk of a class hierarchy finds, said without the
//! walk: the types that are reached from the starting type over parent
//! links through declarations that resolve.

use crate::cache::CacheData;
use crate::hierarchy::{
    climb, climb_step, fresh_parents, lemma_climb_step_decreases, parents_of, ref_names,
    unvisited_count, Climb, RefView,
};
use crate::text::texts;
use vstd::prelude::*;

verus! {

/// Whether the declaration that `child` resolves to names `parent` among
/// its parents.
pub open spec fn parent_link(cache: CacheData, child: Seq<char>, parent: Seq<char>) -> bool {
    cache.class_symbol(child) is Some && texts(cache.class_symbol(child)->0.parent_classes@).contains(
        parent,
    )
}

/// Whether `name` is reached from `start` over at most `steps` parent
/// links.
pub open spec fn ancestor_within(cache: CacheData, start: Seq<char>, name: Seq<char>, steps: nat) -> bool
    decreases steps,
{
    if steps == 0 {
        name == start
    } else {
        ancestor_within(cache, start, name, (steps - 1) as nat) || exists|c: Seq<char>|
            ancestor_within(cache, start, c, (steps - 1) as nat) && #[trigger] parent_link(
                cache,
                c,
                name,
            )
    }
}

/// Whether `name` is reached from `start` over parent links.
pub open spec fn reached(cache: CacheData, start: Seq<char>, name: Seq<char>) -> bool {
    exists|steps: nat| #[trigger] ancestor_within(cache, start, name, steps)
}

/// Whether a reference is that of a type that resolves: it gives the file
/// that the class map gives for the name, and the line of the declaration
/// found there.
pub open spec fn ref_resolves(cache: CacheData, r: RefView) -> bool {
    &&& cache.class_file(r.name) == Some(r.file)
    &&& cache.class_symbol_in(r.name, r.file) is Some
    &&& cache.class_symbol_in(r.name, r.file)->0.start_line == r.line
}

/// What holds of the upward walk at any time: no ancestor is recorded
/// twice, every recorded ancestor resolves, is visited and is not the
/// starting name; every visited name that resolves is recorded, the
/// starting name aside; every name visited or queued is reached from the
/// start; the start is visited or queued; and every parent of a visited
/// name is visited or queued.
pub open spec fn climb_ok(cache: CacheData, start: Seq<char>, c: Climb) -> bool {
    &&& ref_names(c.parents).no_duplicates()
    &&& forall|i: int|
        0 <= i < c.parents.len() ==> ref_resolves(cache, #[trigger] c.parents[i]) && c.parents[i].name
            != start && c.visited.contains(c.parents[i].name)
    &&& forall|n: Seq<char>|
        #![trigger c.visited.contains(n)]
        c.visited.contains(n) && n != start && cache.class_symbol(n) is Some ==> ref_names(
            c.parents,
        ).contains(n)
    &&& forall|n: Seq<char>|
        #![trigger c.visited.contains(n)]
        #![trigger c.queue.contains(n)]
        c.visited.contains(n) || c.queue.contains(n) ==> reached(cache, start, n)
    &&& c.visited.contains(start) || c.queue.contains(start)
    &&& forall|n: Seq<char>, p: Seq<char>|
        c.visited.contains(n) && #[trigger] parent_link(cache, n, p) ==> c.visited.contains(p)
            || c.queue.contains(p)
}

/// What the result of the upward walk holds: every ancestor once; each
/// resolves; and a name is among them exactly when it is not the start,
/// resolves, and is reached from the start.
pub open spec fn parents_ok(cache: CacheData, start: Seq<char>, parents: Seq<RefView>) -> bool {
    &&& ref_names(parents).no_duplicates()
    &&& forall|i: int| 0 <= i < parents.len() ==> ref_resolves(cache, #[trigger] parents[i])
    &&& forall|n: Seq<char>| #[trigger]
        ref_names(parents).contains(n) <==> n != start && cache.class_symbol(n) is Some && reached(
            cache,
            start,
            n,
        )
}

/// One more parent link from a reached name reaches a name.
pub proof fn lemma_reached_step(cache: CacheData, start: Seq<char>, c: Seq<char>, name: Seq<char>)
    requires
        reached(cache, start, c),
        parent_link(cache, c, name),
    ensures
        reached(cache, start, name),
{
    let steps = choose|steps: nat| #[trigger] ancestor_within(cache, start, c, steps);
    assert(ancestor_within(cache, start, name, steps + 1));
}

/// In a walk whose queue is empty, everything reached from the start is
/// visited.
pub proof fn lemma_closed_holds_all(
    cache: CacheData,
    start: Seq<char>,
    c: Climb,
    name: Seq<char>,
    steps: nat,
)
    requires
        climb_ok(cache, start, c),
        c.queue.len() == 0,
        ancestor_within(cache, start, name, steps),
    ensures
        c.visited.contains(name),
    decreases steps,
{
    assert forall|n: Seq<char>| !c.queue.contains(n) by {}
    if steps > 0 {
        if ancestor_within(cache, start, name, (steps - 1) as nat) {
            lemma_closed_holds_all(cache, start, c, name, (steps - 1) as nat);
        } else {
            let mid = choose|mid: Seq<char>|
                ancestor_within(cache, start, mid, (steps - 1) as nat) && #[trigger] parent_link(
                    cache,
                    mid,
                    name,
                );
            lemma_closed_holds_all(cache, start, c, mid, (steps - 1) as nat);
        }
    }
}

/// A list with one more element holds that element and what it held.
proof fn lemma_push_contains<T>(s: Seq<T>, x: T)
    ensures
        forall|y: T| #[trigger] s.push(x).contains(y) <==> s.contains(y) || y == x,
{
    crate::reach::lemma_contains_push(s, x);
}

/// The first four parts of `climb_ok`.
pub open spec fn parents_part(cache: CacheData, start: Seq<char>, c: Climb) -> bool {
    &&& ref_names(c.parents).no_duplicates()
    &&& forall|i: int|
        0 <= i < c.parents.len() ==> ref_resolves(cache, #[trigger] c.parents[i]) && c.parents[i].name
            != start && c.visited.contains(c.parents[i].name)
    &&& forall|n: Seq<char>|
        #![trigger c.visited.contains(n)]
        c.visited.contains(n) && n != start && cache.class_symbol(n) is Some ==> ref_names(
            c.parents,
        ).contains(n)
}

/// The last three parts of `climb_ok`.
pub open spec fn reach_part(cache: CacheData, start: Seq<char>, c: Climb) -> bool {
    &&& forall|n: Seq<char>|
        #![trigger c.visited.contains(n)]
        #![trigger c.queue.contains(n)]
        c.visited.contains(n) || c.queue.contains(n) ==> reached(cache, start, n)
    &&& c.visited.contains(start) || c.queue.contains(start)
    &&& forall|n: Seq<char>, p: Seq<char>|
        c.visited.contains(n) && #[trigger] parent_link(cache, n, p) ==> c.visited.contains(p)
            || c.queue.contains(p)
}

/// The queue is its first name and the rest.
proof fn lemma_queue_parts(queue: Seq<Seq<char>>)
    requires
        queue.len() > 0,
    ensures
        forall|n: Seq<char>| #[trigger]
            queue.contains(n) <==> n == queue[0] || queue.drop_first().contains(n),
{
    let rest = queue.drop_first();
    assert forall|n: Seq<char>| #[trigger] queue.contains(n) <==> n == queue[0] || rest.contains(
        n,
    ) by {
        if queue.contains(n) {
            let i = queue.index_of(n);
            if i > 0 {
                assert(rest[i - 1] == n);
            }
        }
        if rest.contains(n) {
            let i = rest.index_of(n);
            assert(queue[i + 1] == n);
        }
    }
}

/// A name is in a joined list exactly when it is in one of the two.
proof fn lemma_add_contains(a: Seq<Seq<char>>, b: Seq<Seq<char>>)
    ensures
        forall|n: Seq<char>| #[trigger] (a + b).contains(n) <==> a.contains(n) || b.contains(n),
{
    assert forall|n: Seq<char>| #[trigger] (a + b).contains(n) <==> a.contains(n) || b.contains(
        n,
    ) by {
        if (a + b).contains(n) {
            let i = (a + b).index_of(n);
            if i < a.len() {
                assert(a[i] == n);
            } else {
                assert(b[i - a.len()] == n);
            }
        }
        if a.contains(n) {
            let i = a.index_of(n);
            assert((a + b)[i] == n);
        }
        if b.contains(n) {
            let i = b.index_of(n);
            assert((a + b)[a.len() + i] == n);
        }
    }
}

/// A step that drops a name visited before keeps what holds of the walk.
proof fn lemma_step_visited(cache: CacheData, start: Seq<char>, c: Climb)
    requires
        climb_ok(cache, start, c),
        c.queue.len() > 0,
        c.visited.contains(c.queue[0]),
    ensures
        climb_ok(cache, start, climb_step(cache, start, c)),
{
    lemma_queue_parts(c.queue);
}

/// A step that visits a name that does not resolve keeps what holds of
/// the walk.
proof fn lemma_step_unresolved(cache: CacheData, start: Seq<char>, c: Climb)
    requires
        climb_ok(cache, start, c),
        c.queue.len() > 0,
        !c.visited.contains(c.queue[0]),
        cache.class_symbol(c.queue[0]) is None,
    ensures
        climb_ok(cache, start, climb_step(cache, start, c)),
{
    let next = climb_step(cache, start, c);
    let current = c.queue[0];
    lemma_queue_parts(c.queue);
    lemma_push_contains(c.visited, current);
    assert(next.parents == c.parents);
    assert(next.visited == c.visited.push(current));
    assert(next.queue == c.queue.drop_first());
    assert forall|n: Seq<char>, p: Seq<char>|
        next.visited.contains(n) && #[trigger] parent_link(cache, n, p) implies next.visited.contains(
        p,
    ) || next.queue.contains(p) by {
        assert(n != current);
        assert(c.visited.contains(n));
    }
    assert(parents_part(cache, start, next));
    assert(reach_part(cache, start, next));
}

/// A step that visits a name that resolves keeps what holds of the walk.
proof fn lemma_step_resolved(cache: CacheData, start: Seq<char>, c: Climb)
    requires
        climb_ok(cache, start, c),
        c.queue.len() > 0,
        !c.visited.contains(c.queue[0]),
        cache.class_symbol(c.queue[0]) is Some,
    ensures
        climb_ok(cache, start, climb_step(cache, start, c)),
{
    let next = climb_step(cache, start, c);
    let current = c.queue[0];
    let rest = c.queue.drop_first();
    let file = cache.class_file(current)->0;
    let s = cache.class_symbol_in(current, file)->0;
    let fresh = fresh_parents(s, next.visited);
    let ps = texts(s.parent_classes@);
    lemma_queue_parts(c.queue);
    lemma_push_contains(c.visited, current);
    assert(next.visited == c.visited.push(current));
    assert(next.queue == rest + fresh);
    lemma_add_contains(rest, fresh);
    let pred = |p: Seq<char>| !next.visited.contains(p);
    assert forall|n: Seq<char>| fresh.contains(n) <==> ps.contains(n) && !next.visited.contains(
        n,
    ) by {
        if fresh.contains(n) {
            let i = fresh.index_of(n);
            ps.lemma_filter_contains_rev(pred, n);
            ps.lemma_filter_pred(pred, i);
        }
        if ps.contains(n) && !next.visited.contains(n) {
            let i = ps.index_of(n);
            ps.lemma_filter_contains(pred, i);
        }
    }
    assert(reached(cache, start, current));
    assert forall|n: Seq<char>| fresh.contains(n) implies reached(cache, start, n) by {
        assert(parent_link(cache, current, n));
        lemma_reached_step(cache, start, current, n);
    }
    if current != start {
        let r = RefView { name: current, file, line: s.start_line };
        assert(next.parents == c.parents.push(r));
        lemma_push_contains(c.parents, r);
        assert(ref_names(next.parents) =~= ref_names(c.parents).push(current));
        lemma_push_contains(ref_names(c.parents), current);
        if ref_names(c.parents).contains(current) {
            let i = ref_names(c.parents).index_of(current);
            assert(c.parents[i].name == current);
        }
        crate::strmap::lemma_push_fresh(ref_names(c.parents), current);
        assert(ref_resolves(cache, r));
        assert forall|i: int| 0 <= i < next.parents.len() implies ref_resolves(
            cache,
            #[trigger] next.parents[i],
        ) && next.parents[i].name != start && next.visited.contains(next.parents[i].name) by {
            if i < c.parents.len() {
                assert(next.parents[i] == c.parents[i]);
            }
        }
    } else {
        assert(next.parents == c.parents);
    }
    assert(parents_part(cache, start, next));
    assert forall|n: Seq<char>, p: Seq<char>|
        next.visited.contains(n) && #[trigger] parent_link(cache, n, p) implies next.visited.contains(
        p,
    ) || next.queue.contains(p) by {
        if n == current {
            assert(ps.contains(p));
        } else {
            assert(c.visited.contains(n));
        }
    }
    assert(reach_part(cache, start, next));
}

/// A step of the upward walk keeps what holds of it.
pub proof fn lemma_climb_step_ok(cache: CacheData, start: Seq<char>, c: Climb)
    requires
        climb_ok(cache, start, c),
        c.queue.len() > 0,
    ensures
        climb_ok(cache, start, climb_step(cache, start, c)),
{
    let current = c.queue[0];
    if c.visited.contains(current) {
        lemma_step_visited(cache, start, c);
    } else if cache.class_symbol(current) is Some {
        lemma_step_resolved(cache, start, c);
    } else {
        lemma_step_unresolved(cache, start, c);
    }
}

/// The upward walk, run to its end from a state of which `climb_ok`
/// holds, gives ancestors of which `parents_ok` holds.
pub proof fn lemma_climb_ok(cache: CacheData, start: Seq<char>, c: Climb)
    requires
        climb_ok(cache, start, c),
    ensures
        parents_ok(cache, start, climb(cache, start, c)),
    decreases unvisited_count(cache.class_map.keys(), c.visited), c.queue.len(),
{
    if c.queue.len() == 0 {
        let names = ref_names(c.parents);
        assert forall|n: Seq<char>| !c.queue.contains(n) by {}
        assert forall|n: Seq<char>| #[trigger]
            names.contains(n) <==> n != start && cache.class_symbol(n) is Some && reached(
                cache,
                start,
                n,
            ) by {
            if names.contains(n) {
                let i = names.index_of(n);
                assert(c.parents[i].name == n);
                assert(ref_resolves(cache, c.parents[i]));
                assert(c.visited.contains(n));
            }
            if n != start && cache.class_symbol(n) is Some && reached(cache, start, n) {
                let steps = choose|steps: nat| #[trigger] ancestor_within(cache, start, n, steps);
                lemma_closed_holds_all(cache, start, c, n, steps);
            }
        }
    } else {
        lemma_climb_step_decreases(cache, start, c);
        lemma_climb_step_ok(cache, start, c);
        lemma_climb_ok(cache, start, climb_step(cache, start, c));
    }
}

/// The ancestors of a type hold every type once that is reached from it
/// over parent links and resolves, itself aside, and nothing else.
pub proof fn lemma_parents_reach(cache: CacheData, start: Seq<char>)
    ensures
        parents_ok(cache, start, parents_of(cache, start)),
{
    let c = Climb { parents: Seq::empty(), visited: Seq::empty(), queue: seq![start] };
    assert(c.queue[0] == start);
    assert(ancestor_within(cache, start, start, 0));
    assert forall|n: Seq<char>|
        #![trigger c.visited.contains(n)]
        #![trigger c.queue.contains(n)]
        c.visited.contains(n) || c.queue.contains(n) implies reached(cache, start, n) by {
        if c.queue.contains(n) {
            let i = c.queue.index_of(n);
            assert(c.queue[i] == n);
        }
    }
    lemma_climb_ok(cache, start, c);
}

} // verus!
