//! Read-only queries over a loaded index: lookup by name, call graph,
//! class hierarchy and statistics.

use crate::cache::CacheData;
use crate::symbol::{meta_get, meta_view, pairs_lookup, Symbol, SymbolKind};
use crate::text::{
    clone_strings, contains_str, is_substring, lowercase, str_contains, texts, to_lowercase, trim_str, trimmed,
};
use vstd::prelude::*;

verus! {

/// The symbols that a list of references points to.
pub open spec fn derefs(v: Seq<&Symbol>) -> Seq<Symbol> {
    v.map_values(|s: &Symbol| *s)
}

/// Whether a symbol's name holds `query`, letter case aside.
pub open spec fn name_matches(s: Symbol, query: Seq<char>) -> bool {
    is_substring(lowercase(query), lowercase(s.name@))
}

/// Whether a symbol is a call of something named `name`.
pub open spec fn is_call_of(s: Symbol, name: Seq<char>) -> bool {
    s.kind == SymbolKind::MethodCall && s.name@ == name
}

/// The name of the function or method in which a call symbol stands: its
/// `callerMethod` entry, else its `callerFunction` entry, else empty.
pub open spec fn caller_of(s: Symbol) -> Seq<char> {
    match pairs_lookup(meta_view(&s.metadata), "callerMethod"@) {
        Some(v) => v,
        None => match pairs_lookup(meta_view(&s.metadata), "callerFunction"@) {
            Some(v) => v,
            None => Seq::empty(),
        },
    }
}

/// One call: from the caller's name to the callee's, with the place of the
/// call.
#[derive(Debug)]
pub struct CallEdge {
    pub from: String,
    pub to: String,
    pub file: String,
    pub line: u32,
}

/// The mathematical content of a `CallEdge`.
pub struct EdgeView {
    pub from: Seq<char>,
    pub to: Seq<char>,
    pub file: Seq<char>,
    pub line: u32,
}

impl View for CallEdge {
    type V = EdgeView;

    open spec fn view(&self) -> EdgeView {
        EdgeView { from: self.from@, to: self.to@, file: self.file@, line: self.line }
    }
}

/// The contents of a list of edges.
pub open spec fn edge_views(v: Seq<CallEdge>) -> Seq<EdgeView> {
    v.map_values(|e: CallEdge| e@)
}

/// A call graph: the names reached from `entry` and the calls found.
#[derive(Debug)]
pub struct CallGraph {
    pub entry: String,
    pub nodes: Vec<String>,
    pub edges: Vec<CallEdge>,
}

/// The mathematical content of a `CallGraph`.
pub struct CallGraphView {
    pub entry: Seq<char>,
    pub nodes: Seq<Seq<char>>,
    pub edges: Seq<EdgeView>,
}

impl View for CallGraph {
    type V = CallGraphView;

    open spec fn view(&self) -> CallGraphView {
        CallGraphView {
            entry: self.entry@,
            nodes: texts(self.nodes@),
            edges: edge_views(self.edges@),
        }
    }
}

/// The state of a breadth-first walk over calls.
pub struct Walk {
    /// The names seen so far, each once, in the order in which they came up.
    pub nodes: Seq<Seq<char>>,
    /// The calls found so far.
    pub edges: Seq<EdgeView>,
    /// The names whose calls have been looked up.
    pub visited: Seq<Seq<char>>,
    /// The names to look up at the next level.
    pub next: Seq<Seq<char>>,
}

/// `nodes` with `name` added at the end unless it is there already.
pub open spec fn add_node(nodes: Seq<Seq<char>>, name: Seq<char>) -> Seq<Seq<char>> {
    if nodes.contains(name) {
        nodes
    } else {
        nodes.push(name)
    }
}

/// The edge that a call symbol stands for.
pub open spec fn edge_of(s: Symbol) -> EdgeView {
    EdgeView { from: caller_of(s), to: s.name@, file: s.file_path@, line: s.start_line }
}

/// Whether a symbol is a call made from within `current`.
pub open spec fn calls_from(s: Symbol, current: Seq<char>) -> bool {
    s.kind == SymbolKind::MethodCall && caller_of(s) == current
}

/// The walk after one symbol has been looked at on behalf of `current`.
pub open spec fn scan_one(s: Symbol, current: Seq<char>, w: Walk) -> Walk {
    if calls_from(s, current) {
        Walk {
            nodes: add_node(w.nodes, s.name@),
            edges: w.edges.push(edge_of(s)),
            visited: w.visited,
            next: if w.visited.contains(s.name@) {
                w.next
            } else {
                w.next.push(s.name@)
            },
        }
    } else {
        w
    }
}

/// The walk after all symbols have been looked at on behalf of `current`.
pub open spec fn scan_calls(symbols: Seq<Symbol>, current: Seq<char>, w: Walk) -> Walk
    decreases symbols.len(),
{
    if symbols.len() == 0 {
        w
    } else {
        scan_one(symbols.last(), current, scan_calls(symbols.drop_last(), current, w))
    }
}

/// The walk after one name of the frontier has been handled: a name that
/// was visited before changes nothing; a new one is marked, becomes a node,
/// and has its calls collected.
pub open spec fn visit_one(symbols: Seq<Symbol>, current: Seq<char>, w: Walk) -> Walk {
    if w.visited.contains(current) {
        w
    } else {
        scan_calls(
            symbols,
            current,
            Walk {
                nodes: add_node(w.nodes, current),
                edges: w.edges,
                visited: w.visited.push(current),
                next: w.next,
            },
        )
    }
}

/// The walk after a whole frontier has been handled, name by name.
pub open spec fn visit_level(symbols: Seq<Symbol>, frontier: Seq<Seq<char>>, w: Walk) -> Walk
    decreases frontier.len(),
{
    if frontier.len() == 0 {
        w
    } else {
        visit_one(symbols, frontier.last(), visit_level(symbols, frontier.drop_last(), w))
    }
}

/// The walk after at most `depth` further levels, starting with `frontier`.
/// It ends early when a frontier comes up empty.
pub open spec fn traverse(symbols: Seq<Symbol>, frontier: Seq<Seq<char>>, w: Walk, depth: nat) -> Walk
    decreases depth,
{
    if depth == 0 || frontier.len() == 0 {
        w
    } else {
        let after = visit_level(
            symbols,
            frontier,
            Walk { nodes: w.nodes, edges: w.edges, visited: w.visited, next: Seq::empty() },
        );
        traverse(symbols, after.next, after, (depth - 1) as nat)
    }
}

/// The walk before anything has been looked at.
pub open spec fn empty_walk() -> Walk {
    Walk { nodes: Seq::empty(), edges: Seq::empty(), visited: Seq::empty(), next: Seq::empty() }
}

/// The call graph of `entry` over the given symbols, `max_depth` levels
/// deep. A blank entry gives the empty graph.
pub open spec fn call_graph_of(symbols: Seq<Symbol>, entry: Seq<char>, max_depth: nat) -> CallGraphView {
    let start = trimmed(entry);
    if start.len() == 0 {
        CallGraphView { entry: start, nodes: Seq::empty(), edges: Seq::empty() }
    } else {
        let w = traverse(symbols, seq![start], empty_walk(), max_depth);
        CallGraphView { entry: start, nodes: w.nodes, edges: w.edges }
    }
}

/// Whether an edge is read off some call symbol among `symbols`.
pub open spec fn is_call_edge(symbols: Seq<Symbol>, e: EdgeView) -> bool {
    exists|k: int|
        0 <= k < symbols.len() && (#[trigger] symbols[k]).kind == SymbolKind::MethodCall
            && edge_of(symbols[k]) == e
}

/// Whether an edge joins two of the nodes and is read off a call symbol.
pub open spec fn edge_ok(symbols: Seq<Symbol>, nodes: Seq<Seq<char>>, e: EdgeView) -> bool {
    nodes.contains(e.from) && nodes.contains(e.to) && is_call_edge(symbols, e)
}

/// What may be said of a walk at any time: no node twice, every edge
/// between nodes and read off a call symbol, every visited name a node.
pub open spec fn walk_ok(symbols: Seq<Symbol>, w: Walk) -> bool {
    &&& w.nodes.no_duplicates()
    &&& forall|i: int| 0 <= i < w.visited.len() ==> w.nodes.contains(#[trigger] w.visited[i])
    &&& forall|i: int| 0 <= i < w.edges.len() ==> edge_ok(symbols, w.nodes, #[trigger] w.edges[i])
}

/// Adding a name keeps a node list free of repetition, and the list then
/// holds the name and all it held.
pub proof fn lemma_add_node(nodes: Seq<Seq<char>>, name: Seq<char>)
    requires
        nodes.no_duplicates(),
    ensures
        add_node(nodes, name).no_duplicates(),
        add_node(nodes, name).contains(name),
        forall|n: Seq<char>| nodes.contains(n) ==> add_node(nodes, name).contains(n),
{
    if !nodes.contains(name) {
        crate::strmap::lemma_push_fresh(nodes, name);
        let next = nodes.push(name);
        assert(next[nodes.len() as int] == name);
        assert forall|n: Seq<char>| nodes.contains(n) implies next.contains(n) by {
            let i = nodes.index_of(n);
            assert(next[i] == n);
        }
    }
}

/// A scan keeps what may be said of a walk.
pub proof fn lemma_scan_calls_ok(
    all: Seq<Symbol>,
    symbols: Seq<Symbol>,
    current: Seq<char>,
    w: Walk,
)
    requires
        walk_ok(all, w),
        w.nodes.contains(current),
        forall|k: int| 0 <= k < symbols.len() ==> all.contains(#[trigger] symbols[k]),
    ensures
        walk_ok(all, scan_calls(symbols, current, w)),
        scan_calls(symbols, current, w).nodes.contains(current),
        scan_calls(symbols, current, w).visited == w.visited,
    decreases symbols.len(),
{
    if symbols.len() > 0 {
        let rest = symbols.drop_last();
        assert forall|k: int| 0 <= k < rest.len() implies all.contains(#[trigger] rest[k]) by {
            assert(rest[k] == symbols[k]);
        }
        lemma_scan_calls_ok(all, rest, current, w);
        let before = scan_calls(rest, current, w);
        let s = symbols.last();
        let after = scan_one(s, current, before);
        if calls_from(s, current) {
            lemma_add_node(before.nodes, s.name@);
            assert(all.contains(symbols[symbols.len() - 1]));
            let k = all.index_of(s);
            assert(all[k] == s);
            assert(is_call_edge(all, edge_of(s)));
            assert forall|i: int| 0 <= i < after.edges.len() implies edge_ok(
                all,
                after.nodes,
                #[trigger] after.edges[i],
            ) by {
                if i < before.edges.len() {
                    assert(after.edges[i] == before.edges[i]);
                    assert(edge_ok(all, before.nodes, before.edges[i]));
                } else {
                    assert(after.edges[i] == edge_of(s));
                }
            }
            assert forall|i: int| 0 <= i < after.visited.len() implies after.nodes.contains(
                #[trigger] after.visited[i],
            ) by {
                assert(before.nodes.contains(before.visited[i]));
            }
        }
    }
}

/// Handling a frontier keeps what may be said of a walk.
pub proof fn lemma_visit_level_ok(symbols: Seq<Symbol>, frontier: Seq<Seq<char>>, w: Walk)
    requires
        walk_ok(symbols, w),
    ensures
        walk_ok(symbols, visit_level(symbols, frontier, w)),
    decreases frontier.len(),
{
    if frontier.len() > 0 {
        lemma_visit_level_ok(symbols, frontier.drop_last(), w);
        let before = visit_level(symbols, frontier.drop_last(), w);
        let current = frontier.last();
        if !before.visited.contains(current) {
            lemma_add_node(before.nodes, current);
            let marked = Walk {
                nodes: add_node(before.nodes, current),
                edges: before.edges,
                visited: before.visited.push(current),
                next: before.next,
            };
            assert forall|i: int| 0 <= i < marked.visited.len() implies marked.nodes.contains(
                #[trigger] marked.visited[i],
            ) by {
                if i < before.visited.len() {
                    assert(marked.visited[i] == before.visited[i]);
                    assert(before.nodes.contains(before.visited[i]));
                }
            }
            assert forall|i: int| 0 <= i < marked.edges.len() implies edge_ok(
                symbols,
                marked.nodes,
                #[trigger] marked.edges[i],
            ) by {
                assert(edge_ok(symbols, before.nodes, before.edges[i]));
            }
            assert(walk_ok(symbols, marked));
            assert forall|k: int| 0 <= k < symbols.len() implies symbols.contains(
                #[trigger] symbols[k],
            ) by {}
            lemma_scan_calls_ok(symbols, symbols, current, marked);
        }
    }
}

/// Going on for more levels keeps what may be said of a walk.
pub proof fn lemma_traverse_ok(symbols: Seq<Symbol>, frontier: Seq<Seq<char>>, w: Walk, depth: nat)
    requires
        walk_ok(symbols, w),
    ensures
        walk_ok(symbols, traverse(symbols, frontier, w, depth)),
    decreases depth,
{
    if depth != 0 && frontier.len() != 0 {
        let start = Walk { nodes: w.nodes, edges: w.edges, visited: w.visited, next: Seq::empty() };
        assert forall|i: int| 0 <= i < start.edges.len() implies edge_ok(
            symbols,
            start.nodes,
            #[trigger] start.edges[i],
        ) by {
            assert(edge_ok(symbols, w.nodes, w.edges[i]));
        }
        assert forall|i: int| 0 <= i < start.visited.len() implies start.nodes.contains(
            #[trigger] start.visited[i],
        ) by {
            assert(w.nodes.contains(w.visited[i]));
        }
        assert(walk_ok(symbols, start));
        lemma_visit_level_ok(symbols, frontier, start);
        let after = visit_level(symbols, frontier, start);
        lemma_traverse_ok(symbols, after.next, after, (depth - 1) as nat);
    }
}

/// What holds of every call graph: no node twice, and every edge between
/// two of the nodes and read off a call symbol of the index.
pub open spec fn graph_sound(symbols: Seq<Symbol>, g: CallGraphView) -> bool {
    &&& g.nodes.no_duplicates()
    &&& forall|i: int| 0 <= i < g.edges.len() ==> edge_ok(symbols, g.nodes, #[trigger] g.edges[i])
}

/// In every call graph, whatever the entry, the depth and the cycles among
/// the calls, each node appears once, both ends of every edge are nodes,
/// and every edge is read off a call symbol of the index.
pub proof fn lemma_call_graph_sound(symbols: Seq<Symbol>, entry: Seq<char>, max_depth: nat)
    ensures
        graph_sound(symbols, call_graph_of(symbols, entry, max_depth)),
{
    let start = trimmed(entry);
    if start.len() != 0 {
        assert(walk_ok(symbols, empty_walk()));
        lemma_traverse_ok(symbols, seq![start], empty_walk(), max_depth);
        let w = traverse(symbols, seq![start], empty_walk(), max_depth);
        let g = call_graph_of(symbols, entry, max_depth);
        assert forall|i: int| 0 <= i < g.edges.len() implies edge_ok(
            symbols,
            g.nodes,
            #[trigger] g.edges[i],
        ) by {
            assert(edge_ok(symbols, w.nodes, w.edges[i]));
        }
    }
}

/// The working state of a walk.
struct WalkState {
    nodes: Vec<String>,
    edges: Vec<CallEdge>,
    visited: Vec<String>,
    next: Vec<String>,
}

impl View for WalkState {
    type V = Walk;

    closed spec fn view(&self) -> Walk {
        Walk {
            nodes: texts(self.nodes@),
            edges: edge_views(self.edges@),
            visited: texts(self.visited@),
            next: texts(self.next@),
        }
    }
}

/// Appends `name` to `list`.
fn push_text(list: &mut Vec<String>, name: String)
    ensures
        texts(final(list)@) == texts(old(list)@).push(name@),
{
    list.push(name);
    proof {
        assert(texts(list@) =~= texts(old(list)@).push(name@));
    }
}

/// Adds `name` to `nodes` unless it is there already.
fn add_node_to(nodes: &mut Vec<String>, name: &str)
    ensures
        texts(final(nodes)@) == add_node(texts(old(nodes)@), name@),
{
    if !contains_str(nodes, name) {
        push_text(nodes, name.to_string());
    }
}

/// The name of the function or method in which a call symbol stands.
pub fn caller_name(s: &Symbol) -> (r: String)
    ensures
        r@ == caller_of(*s),
{
    match meta_get(&s.metadata, "callerMethod") {
        Some(v) => v.clone(),
        None => match meta_get(&s.metadata, "callerFunction") {
            Some(v) => v.clone(),
            None => String::new(),
        },
    }
}

fn scan_calls_into(symbols: &Vec<&Symbol>, current: &str, st: &mut WalkState)
    ensures
        final(st)@ == scan_calls(derefs(symbols@), current@, old(st)@),
{
    let mut i: usize = 0;
    proof {
        assert(derefs(symbols@).take(0) =~= Seq::empty());
    }
    while i < symbols.len()
        invariant
            i <= symbols.len(),
            st@ == scan_calls(derefs(symbols@).take(i as int), current@, old(st)@),
        decreases symbols.len() - i,
    {
        let s = symbols[i];
        let ghost before = st@;
        proof {
            assert(derefs(symbols@).take(i + 1).drop_last() =~= derefs(symbols@).take(i as int));
            assert(derefs(symbols@).take(i + 1).last() == *s);
        }
        let is_call = match s.kind {
            SymbolKind::MethodCall => true,
            _ => false,
        };
        if is_call {
            let caller = caller_name(s);
            if caller.as_str().eq(current) {
                add_node_to(&mut st.nodes, s.name.as_str());
                let edge = CallEdge {
                    from: caller,
                    to: s.name.clone(),
                    file: s.file_path.clone(),
                    line: s.start_line,
                };
                let ghost old_edges = edge_views(st.edges@);
                st.edges.push(edge);
                proof {
                    assert(edge_views(st.edges@) =~= old_edges.push(edge_of(*s)));
                }
                if !contains_str(&st.visited, s.name.as_str()) {
                    push_text(&mut st.next, s.name.clone());
                }
                proof {
                    assert(st@ == scan_one(*s, current@, before));
                }
            }
        }
        i += 1;
    }
    proof {
        assert(derefs(symbols@).take(symbols.len() as int) =~= derefs(symbols@));
    }
}

fn visit_level_into(symbols: &Vec<&Symbol>, frontier: &Vec<String>, st: &mut WalkState)
    ensures
        final(st)@ == visit_level(derefs(symbols@), texts(frontier@), old(st)@),
{
    let mut i: usize = 0;
    proof {
        assert(texts(frontier@).take(0) =~= Seq::empty());
    }
    while i < frontier.len()
        invariant
            i <= frontier.len(),
            st@ == visit_level(derefs(symbols@), texts(frontier@).take(i as int), old(st)@),
        decreases frontier.len() - i,
    {
        let current = frontier[i].as_str();
        proof {
            assert(texts(frontier@).take(i + 1).drop_last() =~= texts(frontier@).take(i as int));
            assert(texts(frontier@).take(i + 1).last() == current@);
        }
        if !contains_str(&st.visited, current) {
            push_text(&mut st.visited, current.to_string());
            add_node_to(&mut st.nodes, current);
            scan_calls_into(symbols, current, st);
        }
        i += 1;
    }
    proof {
        assert(texts(frontier@).take(frontier.len() as int) =~= texts(frontier@));
    }
}

/// A query engine over one loaded index.
#[derive(Debug)]
pub struct QueryEngine {
    pub cache: CacheData,
}

impl QueryEngine {
    /// A query engine over `cache`.
    pub fn new(cache: CacheData) -> (q: Self)
        ensures
            q.cache == cache,
    {
        QueryEngine { cache }
    }

    /// All symbols whose name holds `query`, letter case aside, in the
    /// order of the index.
    pub fn search_symbols(&self, query: &str) -> (r: Vec<&Symbol>)
        ensures
            derefs(r@) == self.cache.symbols().filter(|s: Symbol| name_matches(s, query@)),
    {
        let all = self.cache.symbol_refs();
        let needle = to_lowercase(query);
        let ghost pred = |s: Symbol| name_matches(s, query@);
        let mut r: Vec<&Symbol> = Vec::new();
        let mut i: usize = 0;
        proof {
            assert(derefs(all@).take(0) =~= Seq::empty());
            assert(derefs(r@) =~= Seq::<Symbol>::empty().filter(pred)) by {
                reveal(Seq::filter);
            }
        }
        while i < all.len()
            invariant
                i <= all.len(),
                needle@ == lowercase(query@),
                pred == (|s: Symbol| name_matches(s, query@)),
                derefs(r@) == derefs(all@).take(i as int).filter(pred),
            decreases all.len() - i,
        {
            let s = all[i];
            let ghost before = derefs(r@);
            proof {
                assert(derefs(all@).take(i as int).push(*s) =~= derefs(all@).take(i + 1));
                derefs(all@).take(i as int).lemma_filter_push(*s, pred);
            }
            let name = to_lowercase(s.name.as_str());
            if str_contains(name.as_str(), needle.as_str()) {
                r.push(s);
                proof {
                    assert(derefs(r@) =~= before.push(*s));
                }
            }
            i += 1;
        }
        proof {
            assert(derefs(all@).take(all.len() as int) =~= derefs(all@));
        }
        r
    }

    /// All call symbols whose name is exactly `callee_name` without its
    /// surrounding white space; none for a blank name.
    pub fn find_call_sites(&self, callee_name: &str) -> (r: Vec<&Symbol>)
        ensures
            derefs(r@) == if trimmed(callee_name@).len() == 0 {
                Seq::<Symbol>::empty()
            } else {
                self.cache.symbols().filter(|s: Symbol| is_call_of(s, trimmed(callee_name@)))
            },
    {
        let needle = trim_str(callee_name);
        let mut r: Vec<&Symbol> = Vec::new();
        if needle.as_str().is_empty() {
            proof {
                assert(derefs(r@) =~= Seq::<Symbol>::empty());
            }
            return r;
        }
        let all = self.cache.symbol_refs();
        let ghost pred = |s: Symbol| is_call_of(s, trimmed(callee_name@));
        let mut i: usize = 0;
        proof {
            assert(derefs(all@).take(0) =~= Seq::empty());
            assert(derefs(r@) =~= Seq::<Symbol>::empty().filter(pred)) by {
                reveal(Seq::filter);
            }
        }
        while i < all.len()
            invariant
                i <= all.len(),
                needle@ == trimmed(callee_name@),
                pred == (|s: Symbol| is_call_of(s, trimmed(callee_name@))),
                derefs(r@) == derefs(all@).take(i as int).filter(pred),
            decreases all.len() - i,
        {
            let s = all[i];
            let ghost before = derefs(r@);
            proof {
                assert(derefs(all@).take(i as int).push(*s) =~= derefs(all@).take(i + 1));
                derefs(all@).take(i as int).lemma_filter_push(*s, pred);
            }
            let is_call = match s.kind {
                SymbolKind::MethodCall => true,
                _ => false,
            };
            if is_call && s.name.as_str().eq(needle.as_str()) {
                r.push(s);
                proof {
                    assert(derefs(r@) =~= before.push(*s));
                }
            }
            i += 1;
        }
        proof {
            assert(derefs(all@).take(all.len() as int) =~= derefs(all@));
        }
        r
    }

    /// The call graph reached from `entry` within `max_depth` levels.
    pub fn get_call_graph(&self, entry: &str, max_depth: usize) -> (g: CallGraph)
        ensures
            g@ == call_graph_of(self.cache.symbols(), entry@, max_depth as nat),
            graph_sound(self.cache.symbols(), g@),
            crate::reach::graph_reaches(self.cache.symbols(), entry@, max_depth as nat, g@),
    {
        proof {
            lemma_call_graph_sound(self.cache.symbols(), entry@, max_depth as nat);
            crate::reach::lemma_call_graph_reach(self.cache.symbols(), entry@, max_depth as nat);
        }
        let start = trim_str(entry);
        if start.as_str().is_empty() {
            let g = CallGraph { entry: start, nodes: Vec::new(), edges: Vec::new() };
            proof {
                assert(g@.nodes =~= Seq::empty());
                assert(g@.edges =~= Seq::empty());
            }
            return g;
        }
        let all = self.cache.symbol_refs();
        let mut st = WalkState {
            nodes: Vec::new(),
            edges: Vec::new(),
            visited: Vec::new(),
            next: Vec::new(),
        };
        let mut frontier: Vec<String> = Vec::new();
        frontier.push(start.clone());
        let mut depth: usize = 0;
        proof {
            assert(st@.nodes =~= Seq::empty());
            assert(st@.edges =~= Seq::empty());
            assert(st@.visited =~= Seq::empty());
            assert(st@.next =~= Seq::empty());
            assert(texts(frontier@) =~= seq![start@]);
        }
        while frontier.len() > 0 && depth < max_depth
            invariant
                depth <= max_depth,
                derefs(all@) == self.cache.symbols(),
                traverse(derefs(all@), texts(frontier@), st@, (max_depth - depth) as nat)
                    == traverse(derefs(all@), seq![start@], empty_walk(), max_depth as nat),
            decreases max_depth - depth,
        {
            st.next = Vec::new();
            proof {
                assert(st@.next =~= Seq::empty());
            }
            visit_level_into(&all, &frontier, &mut st);
            frontier = clone_strings(&st.next);
            depth += 1;
        }
        let g = CallGraph { entry: start, nodes: st.nodes, edges: st.edges };
        g
    }
}

} // verus!
