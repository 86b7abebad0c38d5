//! Plain request and response shapes for callers of the library, and the
//! views of the index that are computed for them.

use crate::rules::{rule_views, severity_label, text_of, Rule, RuleView};
use crate::strmap::{position_of, StrMap};
use crate::symbol::{kind_label, meta_get, meta_view, pairs_lookup, Symbol, SymbolKind};
use crate::text::{append_chars, append_decimal, contains_str, decimal, from_chars, texts};
use vstd::prelude::*;

verus! {

/// A node of the knowledge graph: a symbol by name, with its kind.
#[derive(Debug)]
pub struct GraphNode {
    pub id: String,
    pub label: String,
    pub node_type: String,
}

/// An edge of the knowledge graph.
#[derive(Debug)]
pub struct GraphEdge {
    pub id: String,
    pub source: String,
    pub target: String,
    pub label: Option<String>,
}

/// The knowledge graph.
#[derive(Debug)]
pub struct GraphData {
    pub nodes: Vec<GraphNode>,
    pub edges: Vec<GraphEdge>,
}

/// What a caller asks of the knowledge graph: at most `limit` symbols, one
/// hundred where no limit is given.
#[derive(Debug)]
pub struct KnowledgeGraphRequest {
    pub limit: Option<usize>,
}

/// The answer to a knowledge graph request.
#[derive(Debug)]
pub struct KnowledgeGraphResponse {
    pub graph: GraphData,
}

/// The mathematical content of a `GraphNode`.
pub struct GraphNodeView {
    pub id: Seq<char>,
    pub label: Seq<char>,
    pub node_type: Seq<char>,
}

/// The mathematical content of a `GraphEdge`.
pub struct LinkView {
    pub id: Seq<char>,
    pub source: Seq<char>,
    pub target: Seq<char>,
    pub label: Option<Seq<char>>,
}

impl View for GraphNode {
    type V = GraphNodeView;

    open spec fn view(&self) -> GraphNodeView {
        GraphNodeView { id: self.id@, label: self.label@, node_type: self.node_type@ }
    }
}

impl View for GraphEdge {
    type V = LinkView;

    open spec fn view(&self) -> LinkView {
        LinkView {
            id: self.id@,
            source: self.source@,
            target: self.target@,
            label: text_of(self.label),
        }
    }
}

/// The contents of a list of graph nodes.
pub open spec fn graph_node_views(v: Seq<GraphNode>) -> Seq<GraphNodeView> {
    v.map_values(|n: GraphNode| n@)
}

/// The contents of a list of graph edges.
pub open spec fn link_views(v: Seq<GraphEdge>) -> Seq<LinkView> {
    v.map_values(|e: GraphEdge| e@)
}

/// The limit that a request asks for.
pub open spec fn effective_limit(limit: Option<usize>) -> nat {
    match limit {
        Some(n) => n as nat,
        None => 100,
    }
}

/// The first `limit` of the symbols, all of them where they are fewer.
pub open spec fn taken(symbols: Seq<Symbol>, limit: nat) -> Seq<Symbol> {
    if symbols.len() <= limit {
        symbols
    } else {
        symbols.take(limit as int)
    }
}

/// The names of a list of symbols.
pub open spec fn symbol_names(symbols: Seq<Symbol>) -> Seq<Seq<char>> {
    symbols.map_values(|s: Symbol| s.name@)
}

/// The graph node of a symbol.
pub open spec fn node_of(s: Symbol) -> GraphNodeView {
    GraphNodeView { id: s.name@, label: s.name@, node_type: kind_label(s.kind) }
}

/// The caller that a call symbol states: its `callerMethod` entry, else
/// its `callerFunction` entry.
pub open spec fn stated_caller(s: Symbol) -> Option<Seq<char>> {
    match pairs_lookup(meta_view(&s.metadata), "callerMethod"@) {
        Some(v) => Some(v),
        None => pairs_lookup(meta_view(&s.metadata), "callerFunction"@),
    }
}

/// The edge for a call, as the `n`-th edge of the graph.
pub open spec fn call_link(caller: Seq<char>, callee: Seq<char>, n: nat) -> LinkView {
    LinkView {
        id: "call_edge_"@ + decimal(n),
        source: caller,
        target: callee,
        label: Some("calls"@),
    }
}

/// The edge from a type to a parent, as the `n`-th edge of the graph.
pub open spec fn inherit_link(child: Seq<char>, parent: Seq<char>, n: nat) -> LinkView {
    LinkView {
        id: "inherit_edge_"@ + decimal(n),
        source: child,
        target: parent,
        label: Some("extends"@),
    }
}

/// `links` with an edge from `child` to each of `parents` that is the name
/// of a node, in order.
pub open spec fn parent_links(
    child: Seq<char>,
    parents: Seq<Seq<char>>,
    names: Seq<Seq<char>>,
    links: Seq<LinkView>,
) -> Seq<LinkView>
    decreases parents.len(),
{
    if parents.len() == 0 {
        links
    } else {
        let head = parent_links(child, parents.drop_last(), names, links);
        if names.contains(parents.last()) {
            head.push(inherit_link(child, parents.last(), head.len()))
        } else {
            head
        }
    }
}

/// `links` with the edges of one symbol: for a call that states its
/// caller, the call; for a class or an interface, its parents among the
/// nodes.
pub open spec fn symbol_links(s: Symbol, names: Seq<Seq<char>>, links: Seq<LinkView>) -> Seq<
    LinkView,
> {
    if s.kind == SymbolKind::MethodCall {
        match stated_caller(s) {
            Some(c) => links.push(call_link(c, s.name@, links.len())),
            None => links,
        }
    } else if s.kind == SymbolKind::Class || s.kind == SymbolKind::Interface {
        parent_links(s.name@, texts(s.parent_classes@), names, links)
    } else {
        links
    }
}

/// The edges of a list of symbols, symbol after symbol.
pub open spec fn all_links(symbols: Seq<Symbol>, names: Seq<Seq<char>>) -> Seq<LinkView>
    decreases symbols.len(),
{
    if symbols.len() == 0 {
        Seq::empty()
    } else {
        symbol_links(symbols.last(), names, all_links(symbols.drop_last(), names))
    }
}

/// The edge with the id made of `prefix` and the number of edges so far.
fn new_edge(prefix: &str, n: usize, source: String, target: String, label: &str) -> (e: GraphEdge)
    ensures
        e@ == (LinkView {
            id: prefix@ + decimal(n as nat),
            source: source@,
            target: target@,
            label: Some(label@),
        }),
{
    let mut id: Vec<char> = Vec::new();
    append_chars(&mut id, prefix);
    append_decimal(&mut id, n as u64);
    proof {
        assert(id@ =~= prefix@ + decimal(n as nat));
    }
    GraphEdge { id: from_chars(&id), source, target, label: Some(label.to_string()) }
}

/// The names of a list of symbols.
fn names_of(symbols: &Vec<&Symbol>, count: usize) -> (r: Vec<String>)
    requires
        count <= symbols@.len(),
    ensures
        texts(r@) == symbol_names(symbols@.take(count as int).map_values(|s: &Symbol| *s)),
{
    let mut r: Vec<String> = Vec::new();
    let mut i: usize = 0;
    let ghost list = symbols@.take(count as int).map_values(|s: &Symbol| *s);
    while i < count
        invariant
            i <= count <= symbols@.len(),
            list == symbols@.take(count as int).map_values(|s: &Symbol| *s),
            texts(r@) == symbol_names(list).take(i as int),
        decreases count - i,
    {
        let ghost before = texts(r@);
        let name = symbols[i].name.clone();
        r.push(name);
        proof {
            assert(texts(r@) =~= before.push(name@));
            assert(symbol_names(list).take(i as int).push(name@) =~= symbol_names(list).take(i + 1));
        }
        i += 1;
    }
    proof {
        assert(symbol_names(list).take(count as int) =~= symbol_names(list));
    }
    r
}

/// Appends the edges of one symbol to `edges`.
fn push_symbol_links(s: &Symbol, names: &Vec<String>, edges: &mut Vec<GraphEdge>)
    ensures
        link_views(final(edges)@) == symbol_links(*s, texts(names@), link_views(old(edges)@)),
{
    let ghost start = link_views(edges@);
    match s.kind {
        SymbolKind::MethodCall => {
            let caller = match meta_get(&s.metadata, "callerMethod") {
                Some(v) => Some(v),
                None => meta_get(&s.metadata, "callerFunction"),
            };
            match caller {
                Some(c) => {
                    let e = new_edge("call_edge_", edges.len(), c.clone(), s.name.clone(), "calls");
                    edges.push(e);
                    proof {
                        assert(link_views(edges@) =~= start.push(e@));
                    }
                },
                None => {},
            }
        },
        SymbolKind::Class | SymbolKind::Interface => {
            let mut i: usize = 0;
            let ghost parents = texts(s.parent_classes@);
            proof {
                assert(parents.take(0) =~= Seq::empty());
            }
            while i < s.parent_classes.len()
                invariant
                    i <= s.parent_classes.len(),
                    parents == texts(s.parent_classes@),
                    link_views(edges@) == parent_links(
                        s.name@,
                        parents.take(i as int),
                        texts(names@),
                        start,
                    ),
                decreases s.parent_classes.len() - i,
            {
                let p = &s.parent_classes[i];
                let ghost before = link_views(edges@);
                proof {
                    assert(parents.take(i + 1).drop_last() =~= parents.take(i as int));
                    assert(parents.take(i + 1).last() == p@);
                }
                if contains_str(names, p.as_str()) {
                    let e = new_edge(
                        "inherit_edge_",
                        edges.len(),
                        s.name.clone(),
                        p.clone(),
                        "extends",
                    );
                    edges.push(e);
                    proof {
                        assert(link_views(edges@) =~= before.push(e@));
                    }
                }
                i += 1;
            }
            proof {
                assert(parents.take(s.parent_classes.len() as int) =~= parents);
            }
        },
        _ => {},
    }
}

/// The knowledge graph of the first `limit` of the symbols: a node for
/// every symbol, an edge for every call that states its caller, and an
/// edge from every class or interface to each parent that is the name of
/// a node.
pub fn knowledge_graph(symbols: &Vec<&Symbol>, limit: usize) -> (g: GraphData)
    ensures
        graph_node_views(g.nodes@) == taken(
            symbols@.map_values(|s: &Symbol| *s),
            limit as nat,
        ).map_values(|s: Symbol| node_of(s)),
        link_views(g.edges@) == all_links(
            taken(symbols@.map_values(|s: &Symbol| *s), limit as nat),
            symbol_names(taken(symbols@.map_values(|s: &Symbol| *s), limit as nat)),
        ),
{
    let count = if symbols.len() <= limit {
        symbols.len()
    } else {
        limit
    };
    let ghost all = symbols@.map_values(|s: &Symbol| *s);
    let ghost list = taken(all, limit as nat);
    proof {
        assert(symbols@.take(count as int).map_values(|s: &Symbol| *s) =~= list);
    }
    let names = names_of(symbols, count);
    let mut nodes: Vec<GraphNode> = Vec::new();
    let mut edges: Vec<GraphEdge> = Vec::new();
    let mut i: usize = 0;
    let ghost want = list.map_values(|s: Symbol| node_of(s));
    proof {
        assert(graph_node_views(nodes@) =~= want.take(0));
        assert(list.take(0) =~= Seq::empty());
        assert(link_views(edges@) =~= Seq::empty());
    }
    while i < count
        invariant
            i <= count <= symbols@.len(),
            count == list.len(),
            forall|k: int| 0 <= k < count ==> list[k] == *symbols@[k],
            want == list.map_values(|s: Symbol| node_of(s)),
            texts(names@) == symbol_names(list),
            graph_node_views(nodes@) == want.take(i as int),
            link_views(edges@) == all_links(list.take(i as int), symbol_names(list)),
        decreases count - i,
    {
        let s = symbols[i];
        let ghost before = graph_node_views(nodes@);
        let node = GraphNode {
            id: s.name.clone(),
            label: s.name.clone(),
            node_type: match s.kind {
                SymbolKind::MethodCall => "MethodCall".to_string(),
                SymbolKind::Method => "Method".to_string(),
                SymbolKind::Function => "Function".to_string(),
                SymbolKind::Class => "Class".to_string(),
                SymbolKind::Interface => "Interface".to_string(),
                SymbolKind::Struct => "Struct".to_string(),
            },
        };
        nodes.push(node);
        proof {
            assert(graph_node_views(nodes@) =~= before.push(node@));
            assert(want.take(i as int).push(want[i as int]) =~= want.take(i + 1));
            assert(list.take(i + 1).drop_last() =~= list.take(i as int));
            assert(list.take(i + 1).last() == *s);
        }
        push_symbol_links(s, &names, &mut edges);
        i += 1;
    }
    proof {
        assert(want.take(count as int) =~= want);
        assert(list.take(count as int) =~= list);
    }
    GraphData { nodes, edges }
}

/// The answer to a knowledge graph request over the given symbols.
pub fn answer_knowledge_graph(req: &KnowledgeGraphRequest, symbols: &Vec<&Symbol>) -> (r:
    KnowledgeGraphResponse)
    ensures
        graph_node_views(r.graph.nodes@) == taken(
            symbols@.map_values(|s: &Symbol| *s),
            effective_limit(req.limit),
        ).map_values(|s: Symbol| node_of(s)),
        link_views(r.graph.edges@) == all_links(
            taken(symbols@.map_values(|s: &Symbol| *s), effective_limit(req.limit)),
            symbol_names(taken(symbols@.map_values(|s: &Symbol| *s), effective_limit(req.limit))),
        ),
{
    let limit = match req.limit {
        Some(n) => n,
        None => 100,
    };
    KnowledgeGraphResponse { graph: knowledge_graph(symbols, limit) }
}

/// A rule as it is shown to callers: like the rule, with the severity in
/// words.
#[derive(Debug)]
pub struct RuleResponse {
    pub id: String,
    pub name: String,
    pub description: String,
    pub severity: String,
    pub language: String,
    pub pattern: Option<String>,
    pub query: Option<String>,
    pub category: Option<String>,
    pub cwe: Option<String>,
}

/// One line of a rule document: the key, a colon and a blank, the value,
/// and a line feed.
pub open spec fn yaml_line(key: Seq<char>, value: Seq<char>) -> Seq<char> {
    key + ": "@ + value + "\n"@
}

/// One line of a rule document for a value that may be missing.
pub open spec fn yaml_opt_line(key: Seq<char>, value: Option<String>) -> Seq<char> {
    match value {
        Some(v) => yaml_line(key, v@),
        None => Seq::empty(),
    }
}

/// The rule as a document: one line for each part that is there, in the
/// order id, name, description, severity, language, category, cwe,
/// pattern, query.
pub open spec fn rule_yaml(rule: RuleResponse) -> Seq<char> {
    yaml_line("id"@, rule.id@) + yaml_line("name"@, rule.name@) + yaml_line(
        "description"@,
        rule.description@,
    ) + yaml_line("severity"@, rule.severity@) + yaml_line("language"@, rule.language@)
        + yaml_opt_line("category"@, rule.category) + yaml_opt_line("cwe"@, rule.cwe)
        + yaml_opt_line("pattern"@, rule.pattern) + yaml_opt_line("query"@, rule.query)
}

fn push_line(out: &mut Vec<char>, key: &str, value: &str)
    ensures
        final(out)@ == old(out)@ + yaml_line(key@, value@),
{
    append_chars(out, key);
    append_chars(out, ": ");
    append_chars(out, value);
    append_chars(out, "\n");
    proof {
        assert(out@ =~= old(out)@ + yaml_line(key@, value@));
    }
}

fn push_opt_line(out: &mut Vec<char>, key: &str, value: &Option<String>)
    ensures
        final(out)@ == old(out)@ + yaml_opt_line(key@, *value),
{
    match value {
        Some(v) => {
            push_line(out, key, v.as_str());
        },
        None => {
            proof {
                assert(out@ + Seq::<char>::empty() =~= out@);
            }
        },
    }
}

/// The rule as a document.
pub fn rule_to_yaml(rule: &RuleResponse) -> (yaml: String)
    ensures
        yaml@ == rule_yaml(*rule),
{
    let mut out: Vec<char> = Vec::new();
    push_line(&mut out, "id", rule.id.as_str());
    push_line(&mut out, "name", rule.name.as_str());
    push_line(&mut out, "description", rule.description.as_str());
    push_line(&mut out, "severity", rule.severity.as_str());
    push_line(&mut out, "language", rule.language.as_str());
    push_opt_line(&mut out, "category", &rule.category);
    push_opt_line(&mut out, "cwe", &rule.cwe);
    push_opt_line(&mut out, "pattern", &rule.pattern);
    push_opt_line(&mut out, "query", &rule.query);
    proof {
        assert(out@ =~= rule_yaml(*rule));
    }
    from_chars(&out)
}

impl RuleResponse {
    /// The rule as it is shown to callers.
    pub fn from_rule(rule: Rule) -> (r: RuleResponse)
        ensures
            r.id == rule.id,
            r.name == rule.name,
            r.description == rule.description,
            r.severity@ == severity_label(rule.severity),
            r.language == rule.language,
            r.pattern == rule.pattern,
            r.query == rule.query,
            r.category == rule.category,
            r.cwe == rule.cwe,
    {
        RuleResponse {
            id: rule.id,
            name: rule.name,
            description: rule.description,
            severity: rule.severity.label(),
            language: rule.language,
            pattern: rule.pattern,
            query: rule.query,
            category: rule.category,
            cwe: rule.cwe,
        }
    }
}

/// How many rules there are, in all and by severity, language and
/// category.
#[derive(Debug)]
pub struct RuleStats {
    pub total: usize,
    pub by_severity: StrMap<usize>,
    pub by_language: StrMap<usize>,
    pub by_category: StrMap<usize>,
}

/// A tally: names with the number of times each came up.
pub type Tally = Seq<(Seq<char>, nat)>;

/// The names of a tally.
pub open spec fn tally_names(t: Tally) -> Seq<Seq<char>> {
    t.map_values(|e: (Seq<char>, nat)| e.0)
}

/// A tally with `name` counted once more: its count raised where the name
/// is there already, a count of one at the end where it is new.
pub open spec fn tally_add(t: Tally, name: Seq<char>) -> Tally {
    match position_of(tally_names(t), name) {
        Some(i) => t.update(i, (name, t[i].1 + 1)),
        None => t.push((name, 1nat)),
    }
}

/// The tally of a list of names that may be missing: every name that is
/// there counted once, in order.
pub open spec fn tally_of(names: Seq<Option<Seq<char>>>) -> Tally
    decreases names.len(),
{
    if names.len() == 0 {
        Seq::empty()
    } else {
        let head = tally_of(names.drop_last());
        match names.last() {
            Some(n) => tally_add(head, n),
            None => head,
        }
    }
}

/// No name in a tally of `names` has come up more often than `names` is
/// long.
pub proof fn lemma_tally_bound(names: Seq<Option<Seq<char>>>, i: int)
    requires
        0 <= i < tally_of(names).len(),
    ensures
        tally_of(names)[i].1 <= names.len(),
    decreases names.len(),
{
    if names.len() > 0 {
        let head = tally_of(names.drop_last());
        match names.last() {
            Some(n) => {
                if i < head.len() {
                    lemma_tally_bound(names.drop_last(), i);
                }
            },
            None => {
                lemma_tally_bound(names.drop_last(), i);
            },
        }
    }
}

/// What a map of counts stands for.
pub open spec fn tally_view(m: &StrMap<usize>) -> Tally {
    Seq::new(m.keys().len(), |i: int| (m.keys()[i], m.values()[i] as nat))
}

/// The severity of a rule, in words.
pub open spec fn severity_key(r: RuleView) -> Option<Seq<char>> {
    Some(severity_label(r.severity))
}

/// The language of a rule.
pub open spec fn language_key(r: RuleView) -> Option<Seq<char>> {
    Some(r.language)
}

/// The category of a rule, where it has one.
pub open spec fn category_key(r: RuleView) -> Option<Seq<char>> {
    r.category
}

/// Counts `name` once more in `m`, for the `n`-th name of a list.
fn count_once(m: &mut StrMap<usize>, name: String, Ghost(names): Ghost<Seq<Option<Seq<char>>>>)
    requires
        tally_view(old(m)) == tally_of(names),
        names.len() < usize::MAX,
    ensures
        tally_view(final(m)) == tally_add(tally_of(names), name@),
{
    let ghost before = tally_view(m);
    proof {
        m.lemma_same_len();
        assert(tally_names(before) =~= m.keys());
    }
    let count: usize = match m.find(name.as_str()) {
        Some(i) => {
            proof {
                lemma_tally_bound(names, i as int);
            }
            *m.value_at(i) + 1
        },
        None => 1,
    };
    m.insert(name, count);
    proof {
        m.lemma_same_len();
        assert(tally_view(m) =~= tally_add(before, name@));
    }
}

/// The statistics of a list of rules.
pub fn rule_stats(rules: &Vec<Rule>) -> (st: RuleStats)
    ensures
        st.total == rules@.len(),
        tally_view(&st.by_severity) == tally_of(
            rule_views(rules@).map_values(|r: RuleView| severity_key(r)),
        ),
        tally_view(&st.by_language) == tally_of(
            rule_views(rules@).map_values(|r: RuleView| language_key(r)),
        ),
        tally_view(&st.by_category) == tally_of(
            rule_views(rules@).map_values(|r: RuleView| category_key(r)),
        ),
{
    let mut by_severity: StrMap<usize> = StrMap::new();
    let mut by_language: StrMap<usize> = StrMap::new();
    let mut by_category: StrMap<usize> = StrMap::new();
    let ghost sev = rule_views(rules@).map_values(|r: RuleView| severity_key(r));
    let ghost lang = rule_views(rules@).map_values(|r: RuleView| language_key(r));
    let ghost cat = rule_views(rules@).map_values(|r: RuleView| category_key(r));
    let mut i: usize = 0;
    proof {
        assert(sev.take(0) =~= Seq::empty());
        assert(lang.take(0) =~= Seq::empty());
        assert(cat.take(0) =~= Seq::empty());
        assert(tally_view(&by_severity) =~= Seq::empty());
        assert(tally_view(&by_language) =~= Seq::empty());
        assert(tally_view(&by_category) =~= Seq::empty());
    }
    while i < rules.len()
        invariant
            i <= rules.len(),
            sev == rule_views(rules@).map_values(|r: RuleView| severity_key(r)),
            lang == rule_views(rules@).map_values(|r: RuleView| language_key(r)),
            cat == rule_views(rules@).map_values(|r: RuleView| category_key(r)),
            tally_view(&by_severity) == tally_of(sev.take(i as int)),
            tally_view(&by_language) == tally_of(lang.take(i as int)),
            tally_view(&by_category) == tally_of(cat.take(i as int)),
        decreases rules.len() - i,
    {
        let r = &rules[i];
        proof {
            assert(sev.take(i + 1).drop_last() =~= sev.take(i as int));
            assert(lang.take(i + 1).drop_last() =~= lang.take(i as int));
            assert(cat.take(i + 1).drop_last() =~= cat.take(i as int));
            assert(sev.take(i + 1).last() == severity_key(r@));
            assert(lang.take(i + 1).last() == language_key(r@));
            assert(cat.take(i + 1).last() == category_key(r@));
        }
        count_once(&mut by_severity, r.severity.label(), Ghost(sev.take(i as int)));
        count_once(&mut by_language, r.language.clone(), Ghost(lang.take(i as int)));
        match &r.category {
            Some(c) => {
                count_once(&mut by_category, c.clone(), Ghost(cat.take(i as int)));
            },
            None => {},
        }
        i += 1;
    }
    proof {
        assert(sev.take(rules.len() as int) =~= sev);
        assert(lang.take(rules.len() as int) =~= lang);
        assert(cat.take(rules.len() as int) =~= cat);
    }
    RuleStats { total: rules.len(), by_severity, by_language, by_category }
}

} // verus!
