use ctx_audit_core::cache::CacheData;
use ctx_audit_core::engine::{drop_owned, merge_file, remove_file};
use ctx_audit_core::hierarchy::QueryError;
use ctx_audit_core::parser::ASTParser;
use ctx_audit_core::query::QueryEngine;
use ctx_audit_core::symbol::{meta_insert, new_metadata, Symbol, SymbolKind};

fn call(name: &str, caller: &str, file: &str, line: u32) -> Symbol {
    let mut md = new_metadata();
    meta_insert(&mut md, "callerFunction".to_string(), caller.to_string());
    Symbol::new(name.to_string(), SymbolKind::MethodCall, file.to_string(), line, String::new())
        .with_metadata(md)
}

fn class(name: &str, parents: &[&str], file: &str, line: u32) -> Symbol {
    Symbol::new(name.to_string(), SymbolKind::Class, file.to_string(), line, String::new())
        .with_parent_classes(parents.iter().map(|p| p.to_string()).collect())
}

fn engine_of(files: Vec<(&str, Vec<Symbol>)>) -> QueryEngine {
    let mut cache = CacheData::empty("2024-01-01T00:00:00+00:00".to_string());
    for (path, symbols) in files {
        merge_file(&mut cache, path, 1, symbols);
    }
    QueryEngine::new(cache)
}

#[test]
fn call_graph_of_indexed_python_file() {
    let parser = ASTParser::new();
    let symbols = parser.parse_file("a.py", "def f(): g()\ndef g(): pass\n").unwrap();
    let engine = engine_of(vec![("a.py", symbols)]);
    let graph = engine.get_call_graph("f", 2);
    assert_eq!(graph.entry, "f");
    assert_eq!(graph.nodes, vec!["f".to_string(), "g".to_string()]);
    assert_eq!(graph.edges.len(), 1);
    assert_eq!(graph.edges[0].from, "f");
    assert_eq!(graph.edges[0].to, "g");
    assert_eq!(graph.edges[0].file, "a.py");
    assert_eq!(graph.edges[0].line, 1);
}

#[test]
fn call_graph_ends_on_cycles() {
    let engine = engine_of(vec![(
        "c.py",
        vec![call("b", "a", "c.py", 1), call("a", "b", "c.py", 2), call("a", "a", "c.py", 3)],
    )]);
    let graph = engine.get_call_graph("a", 1000);
    assert_eq!(graph.nodes, vec!["a".to_string(), "b".to_string()]);
    let edges: Vec<(String, String, u32)> =
        graph.edges.iter().map(|e| (e.from.clone(), e.to.clone(), e.line)).collect();
    assert_eq!(
        edges,
        vec![
            ("a".to_string(), "b".to_string(), 1),
            ("a".to_string(), "a".to_string(), 3),
            ("b".to_string(), "a".to_string(), 2),
        ]
    );
    let unbounded = engine.get_call_graph("a", usize::MAX);
    assert_eq!(unbounded.nodes.len(), 2);
}

#[test]
fn call_graph_respects_depth() {
    let engine = engine_of(vec![(
        "d.py",
        vec![call("b", "a", "d.py", 1), call("c", "b", "d.py", 2), call("d", "c", "d.py", 3)],
    )]);
    let zero = engine.get_call_graph("a", 0);
    assert_eq!(zero.nodes.len(), 0);
    assert_eq!(zero.edges.len(), 0);
    let one = engine.get_call_graph("a", 1);
    assert_eq!(one.nodes, vec!["a".to_string(), "b".to_string()]);
    let two = engine.get_call_graph("a", 2);
    assert_eq!(two.nodes, vec!["a".to_string(), "b".to_string(), "c".to_string()]);
    assert_eq!(two.edges.len(), 2);
    let all = engine.get_call_graph("  a \n", 10);
    assert_eq!(all.entry, "a");
    assert_eq!(all.nodes.len(), 4);
}

#[test]
fn call_graph_of_blank_entry_is_empty() {
    let engine = engine_of(vec![("d.py", vec![call("b", "", "d.py", 1)])]);
    let graph = engine.get_call_graph("   ", 5);
    assert_eq!(graph.entry, "");
    assert_eq!(graph.nodes.len(), 0);
    assert_eq!(graph.edges.len(), 0);
}

#[test]
fn caller_method_wins_over_caller_function() {
    let mut md = new_metadata();
    meta_insert(&mut md, "callerFunction".to_string(), "f".to_string());
    meta_insert(&mut md, "callerMethod".to_string(), "m".to_string());
    let s = Symbol::new("x".to_string(), SymbolKind::MethodCall, "a".to_string(), 1, String::new())
        .with_metadata(md);
    let engine = engine_of(vec![("a", vec![s])]);
    assert_eq!(engine.get_call_graph("m", 3).edges.len(), 1);
    assert_eq!(engine.get_call_graph("f", 3).edges.len(), 0);
}

#[test]
fn class_hierarchy_is_symmetric() {
    let engine = engine_of(vec![
        ("a.java", vec![class("ClassA", &[], "a.java", 3)]),
        ("b.java", vec![class("ClassB", &["ClassA"], "b.java", 5)]),
    ]);
    let b = engine.get_class_hierarchy("ClassB").unwrap();
    assert_eq!(b.class, "ClassB");
    assert_eq!(b.file, "b.java");
    assert_eq!(b.parents.len(), 1);
    assert_eq!(b.parents[0].name, "ClassA");
    assert_eq!(b.parents[0].file, "a.java");
    assert_eq!(b.parents[0].line, 3);
    assert_eq!(b.children.len(), 0);
    let a = engine.get_class_hierarchy("ClassA").unwrap();
    assert_eq!(a.parents.len(), 0);
    assert_eq!(a.children.len(), 1);
    assert_eq!(a.children[0].name, "ClassB");
    assert_eq!(a.children[0].file, "b.java");
    assert_eq!(a.children[0].line, 5);
}

#[test]
fn class_hierarchy_walks_ancestors_breadth_first() {
    let engine = engine_of(vec![(
        "h.java",
        vec![
            class("Top", &[], "h.java", 1),
            class("Left", &["Top"], "h.java", 2),
            class("Right", &["Top", "Missing"], "h.java", 3),
            class("Leaf", &["Left", "Right"], "h.java", 4),
            class("Loop", &["Loop", "Leaf"], "h.java", 5),
        ],
    )]);
    let leaf = engine.get_class_hierarchy("Leaf").unwrap();
    let parents: Vec<String> = leaf.parents.iter().map(|p| p.name.clone()).collect();
    assert_eq!(parents, vec!["Left".to_string(), "Right".to_string(), "Top".to_string()]);
    let children: Vec<String> = leaf.children.iter().map(|p| p.name.clone()).collect();
    assert_eq!(children, vec!["Loop".to_string()]);
    let top = engine.get_class_hierarchy("Top").unwrap();
    let kids: Vec<String> = top.children.iter().map(|p| p.name.clone()).collect();
    assert_eq!(kids, vec!["Left".to_string(), "Right".to_string()]);
    let looped = engine.get_class_hierarchy("Loop").unwrap();
    let up: Vec<String> = looped.parents.iter().map(|p| p.name.clone()).collect();
    assert_eq!(
        up,
        vec!["Leaf".to_string(), "Left".to_string(), "Right".to_string(), "Top".to_string()]
    );
}

#[test]
fn class_hierarchy_of_unknown_class_is_an_error() {
    let engine = engine_of(vec![("a.java", vec![class("A", &[], "a.java", 1)])]);
    match engine.get_class_hierarchy("Nope") {
        Err(QueryError::ClassNotFound(name)) => assert_eq!(name, "Nope"),
        Ok(_) => panic!("found a class that is not there"),
    }
}

#[test]
fn interfaces_and_structs_count_as_types() {
    let iface =
        Symbol::new("I".to_string(), SymbolKind::Interface, "i.java".to_string(), 1, String::new());
    let engine = engine_of(vec![
        ("i.java", vec![iface]),
        ("c.java", vec![class("C", &["I"], "c.java", 2)]),
    ]);
    let i = engine.get_class_hierarchy("I").unwrap();
    assert_eq!(i.children.len(), 1);
    let c = engine.get_class_hierarchy("C").unwrap();
    assert_eq!(c.parents.len(), 1);
    assert_eq!(c.parents[0].name, "I");
}

#[test]
fn search_is_case_insensitive() {
    let engine = engine_of(vec![
        ("a.py", vec![call("getUser", "f", "a.py", 1), call("other", "f", "a.py", 2)]),
        ("b.py", vec![class("UserStore", &[], "b.py", 1)]),
    ]);
    let hits: Vec<String> = engine.search_symbols("USER").iter().map(|s| s.name.clone()).collect();
    assert_eq!(hits, vec!["getUser".to_string(), "UserStore".to_string()]);
    assert_eq!(engine.search_symbols("").len(), 3);
    assert_eq!(engine.search_symbols("zzz").len(), 0);
}

#[test]
fn call_sites_match_exactly() {
    let engine = engine_of(vec![(
        "a.py",
        vec![
            call("run", "f", "a.py", 1),
            call("Run", "f", "a.py", 2),
            call("run", "g", "a.py", 3),
            class("run", &[], "a.py", 4),
        ],
    )]);
    let hits: Vec<u32> = engine.find_call_sites(" run ").iter().map(|s| s.start_line).collect();
    assert_eq!(hits, vec![1, 3]);
    assert_eq!(engine.find_call_sites("  ").len(), 0);
    assert_eq!(engine.find_call_sites("ru").len(), 0);
}

#[test]
fn file_structure_lists_the_files_symbols() {
    let engine = engine_of(vec![
        ("a.py", vec![call("x", "f", "a.py", 1), call("y", "f", "a.py", 2)]),
        ("b.py", vec![call("z", "f", "b.py", 1)]),
    ]);
    let names: Vec<String> =
        engine.get_file_structure("a.py").iter().map(|s| s.name.clone()).collect();
    assert_eq!(names, vec!["x".to_string(), "y".to_string()]);
    assert_eq!(engine.get_file_structure("c.py").len(), 0);
}

#[test]
fn statistics_count_by_kind() {
    let f = Symbol::new("f".to_string(), SymbolKind::Function, "a".to_string(), 1, String::new());
    let engine = engine_of(vec![
        ("a", vec![f, call("x", "f", "a", 2), call("y", "f", "a", 3)]),
        ("b", vec![class("C", &[], "b", 1)]),
    ]);
    let st = engine.get_statistics();
    assert_eq!(st.total_nodes, 4);
    assert_eq!(st.count(SymbolKind::Function), 1);
    assert_eq!(st.count(SymbolKind::MethodCall), 2);
    assert_eq!(st.count(SymbolKind::Class), 1);
    assert_eq!(st.count(SymbolKind::Method), 0);
    assert_eq!(st.count(SymbolKind::Interface), 0);
    assert_eq!(st.count(SymbolKind::Struct), 0);
    assert_eq!(ctx_audit_core::stats::display_kind_name(SymbolKind::Function), "Method/Function");
}

#[test]
fn class_map_follows_merges_and_removals() {
    let mut cache = CacheData::empty("t".to_string());
    merge_file(&mut cache, "a.java", 1, vec![class("A", &[], "a.java", 1)]);
    merge_file(&mut cache, "b.java", 1, vec![class("A", &[], "b.java", 1), class("B", &[], "b.java", 2)]);
    assert_eq!(cache.class_map.get("A").cloned(), Some("b.java".to_string()));
    assert_eq!(cache.class_map.get("B").cloned(), Some("b.java".to_string()));
    assert_eq!(cache.index.len(), 2);
    remove_file(&mut cache, "b.java");
    assert_eq!(cache.index.len(), 1);
    assert!(cache.class_map.get("A").is_none());
    assert!(cache.class_map.get("B").is_none());
    let mut engine = QueryEngine::new(cache);
    engine.rebuild_class_map();
    assert_eq!(engine.cache.class_map.get("A").cloned(), Some("a.java".to_string()));
    assert_eq!(engine.cache.class_map.len(), 1);
    remove_file(&mut engine.cache, "zzz");
    assert_eq!(engine.cache.index.len(), 1);
}

#[test]
fn removing_a_file_keeps_the_entries_of_other_files() {
    let mut cache = CacheData::empty("t".to_string());
    merge_file(&mut cache, "p.java", 1, vec![class("N", &[], "p.java", 1), class("P", &[], "p.java", 2)]);
    merge_file(&mut cache, "q.java", 1, vec![class("N", &[], "q.java", 1), class("Q", &[], "q.java", 2)]);
    assert_eq!(cache.class_map.get("N").cloned(), Some("q.java".to_string()));
    remove_file(&mut cache, "p.java");
    assert!(cache.index.get("p.java").is_none());
    assert!(cache.index.get("q.java").is_some());
    assert_eq!(cache.class_map.get("N").cloned(), Some("q.java".to_string()));
    assert_eq!(cache.class_map.get("Q").cloned(), Some("q.java".to_string()));
    assert!(cache.class_map.get("P").is_none());
    assert_eq!(cache.class_map.len(), 2);
    let mut map = cache.class_map;
    drop_owned(&mut map, "q.java");
    assert_eq!(map.len(), 0);
}
