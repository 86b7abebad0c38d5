use ctx_audit_core::api::{
    answer_knowledge_graph, knowledge_graph, rule_stats, rule_to_yaml, KnowledgeGraphRequest,
    RuleResponse,
};
use ctx_audit_core::cache::CacheData;
use ctx_audit_core::engine::merge_file;
use ctx_audit_core::error::CoreError;
use ctx_audit_core::manager::{take_prefix, CacheManager};
use ctx_audit_core::mcp::{check_timeout, get_tool_timeout, RequestInfo, MAX_CONCURRENT_REQUESTS, MCP_PORT};
use ctx_audit_core::query::QueryEngine;
use ctx_audit_core::report::{language_of, merge_metadata};
use ctx_audit_core::rules::{Rule, Severity};
use ctx_audit_core::strmap::StrMap;
use ctx_audit_core::symbol::{meta_get, meta_insert, new_metadata, Symbol, SymbolKind};

fn call(name: &str, caller: Option<&str>) -> Symbol {
    let mut md = new_metadata();
    if let Some(c) = caller {
        meta_insert(&mut md, "callerFunction".to_string(), c.to_string());
    }
    Symbol::new(name.to_string(), SymbolKind::MethodCall, "f.py".to_string(), 1, String::new())
        .with_metadata(md)
}

fn class(name: &str, parents: &[&str]) -> Symbol {
    Symbol::new(name.to_string(), SymbolKind::Class, "f.java".to_string(), 1, String::new())
        .with_parent_classes(parents.iter().map(|p| p.to_string()).collect())
}

#[test]
fn fresh_symbol_is_one_line_long() {
    let s = Symbol::new("n".to_string(), SymbolKind::Method, "p".to_string(), 7, "c".to_string());
    assert_eq!((s.line, s.start_line, s.end_line), (7, 7, 7));
    assert_eq!(s.kind_to_string(), "method");
    assert!(s.parent_classes.is_empty() && s.modifiers.is_empty() && s.fields.is_empty());
    assert_eq!(s.metadata.len(), 0);
    let s = s.with_end_line(9).with_package("pkg".to_string());
    assert_eq!((s.line, s.start_line, s.end_line), (9, 7, 9));
    assert_eq!(s.package, "pkg");
    for (kind, word) in [
        (SymbolKind::Class, "class"),
        (SymbolKind::Function, "function"),
        (SymbolKind::MethodCall, "method_call"),
        (SymbolKind::Interface, "interface"),
        (SymbolKind::Struct, "struct"),
    ] {
        let s = Symbol::new(String::new(), kind, String::new(), 1, String::new());
        assert_eq!(s.kind_to_string(), word);
    }
}

#[test]
fn report_node_of_a_class() {
    let mut md = new_metadata();
    meta_insert(&mut md, "note".to_string(), "x".to_string());
    let s = Symbol::new(
        "Shape".to_string(),
        SymbolKind::Class,
        "src/geo/Shape.RS".to_string(),
        12,
        "class Shape".to_string(),
    )
    .with_end_line(40)
    .with_package("geo".to_string())
    .with_parent_classes(vec!["Base".to_string(), "Drawable".to_string()])
    .with_modifiers(vec!["public".to_string()])
    .with_metadata(md);
    let n = s.to_dict();
    assert_eq!(n.id, "src/geo/Shape.RS:Shape:12");
    assert_eq!(s.node_id(), "src/geo/Shape.RS:Shape:12");
    assert_eq!(n.language, "rust");
    assert_eq!(n.node_type, "Class");
    assert_eq!(n.kind, "class");
    assert_eq!(n.name, "Shape");
    assert_eq!(n.file, "src/geo/Shape.RS");
    assert_eq!(n.package, "geo");
    assert_eq!(n.full_class_name, "geo.Shape");
    assert_eq!((n.start_line, n.end_line, n.line), (12, 40, 12));
    assert_eq!(n.code, "class Shape");
    assert_eq!(n.modifiers, vec!["public".to_string()]);
    assert_eq!(n.parent_classes, vec!["Base".to_string(), "Drawable".to_string()]);
    assert_eq!(n.metadata.len(), 2);
    assert_eq!(n.metadata.key_at(0), "superClasses");
    assert_eq!(meta_get(&n.metadata, "superClasses").cloned(), Some("Base, Drawable".to_string()));
    assert_eq!(meta_get(&n.metadata, "note").cloned(), Some("x".to_string()));
}

#[test]
fn report_node_of_a_call_has_no_super_classes() {
    let mut md = new_metadata();
    meta_insert(&mut md, "superClasses".to_string(), "mine".to_string());
    let own = Symbol::new("I".to_string(), SymbolKind::Interface, "I.java".to_string(), 1, String::new())
        .with_metadata(md);
    assert_eq!(meta_get(&own.to_dict().metadata, "superClasses").cloned(), Some("mine".to_string()));
    let n = call("run", Some("main")).to_dict();
    assert!(meta_get(&n.metadata, "superClasses").is_none());
    assert_eq!(n.full_class_name, "run");
    assert_eq!(n.node_type, "MethodCall");
    assert_eq!(n.language, "python");
}

#[test]
fn language_tags() {
    assert_eq!(language_of("a.rs"), "rust");
    assert_eq!(language_of("a.py"), "python");
    assert_eq!(language_of("a.js"), "javascript");
    assert_eq!(language_of("a.ts"), "typescript");
    assert_eq!(language_of("a.TSX"), "typescript");
    assert_eq!(language_of("a.Java"), "java");
    assert_eq!(language_of("Makefile"), "");
    assert_eq!(language_of("dir.d/file"), "");
}

#[test]
fn merged_metadata_overwrites_in_place() {
    let mut a = new_metadata();
    meta_insert(&mut a, "k".to_string(), "1".to_string());
    meta_insert(&mut a, "l".to_string(), "2".to_string());
    let mut b = new_metadata();
    meta_insert(&mut b, "m".to_string(), "3".to_string());
    meta_insert(&mut b, "k".to_string(), "4".to_string());
    let m = merge_metadata(a, &b);
    let keys: Vec<String> = (0..m.len()).map(|i| m.key_at(i).clone()).collect();
    let vals: Vec<String> = (0..m.len()).map(|i| m.value_at(i).clone()).collect();
    assert_eq!(keys, vec!["k".to_string(), "l".to_string(), "m".to_string()]);
    assert_eq!(vals, vec!["4".to_string(), "2".to_string(), "3".to_string()]);
}

#[test]
fn report_holds_one_node_for_every_id() {
    let mut cache = CacheData::empty("t".to_string());
    merge_file(&mut cache, "f.py", 1, vec![call("a", None), call("b", None), call("a", Some("x"))]);
    let engine = QueryEngine::new(cache);
    let report = engine.generate_report_at("/repo", "2024-01-01T00:00:00Z".to_string());
    assert_eq!(report.metadata.build_time, "2024-01-01T00:00:00Z");
    assert_eq!(report.metadata.cache_version, "1.0");
    assert_eq!(report.metadata.repository_path, "/repo");
    assert_eq!(report.metadata.node_count, 2);
    assert_eq!(report.nodes.len(), 2);
    assert_eq!(report.nodes.key_at(0), "f.py:a:1");
    assert_eq!(report.nodes.key_at(1), "f.py:b:1");
    let a = report.nodes.get("f.py:a:1").unwrap();
    assert_eq!(meta_get(&a.metadata, "callerFunction").cloned(), Some("x".to_string()));
    let now = engine.generate_report("/repo");
    assert!(now.metadata.build_time.len() >= 20);
    assert!(now.metadata.build_time.contains('T'));
    assert_eq!(now.metadata.node_count, 2);
}

#[test]
fn knowledge_graph_links_calls_and_parents() {
    let symbols = vec![
        class("A", &[]),
        class("B", &["A", "Missing", "C"]),
        call("run", Some("main")),
        call("lost", None),
        class("C", &[]),
        class("D", &["A"]),
    ];
    let refs: Vec<&Symbol> = symbols.iter().collect();
    let g = knowledge_graph(&refs, 5);
    let nodes: Vec<(String, String)> = g.nodes.iter().map(|n| (n.id.clone(), n.node_type.clone())).collect();
    assert_eq!(
        nodes,
        vec![
            ("A".to_string(), "Class".to_string()),
            ("B".to_string(), "Class".to_string()),
            ("run".to_string(), "MethodCall".to_string()),
            ("lost".to_string(), "MethodCall".to_string()),
            ("C".to_string(), "Class".to_string()),
        ]
    );
    assert_eq!(g.nodes[0].label, "A");
    let edges: Vec<(String, String, String, Option<String>)> = g
        .edges
        .iter()
        .map(|e| (e.id.clone(), e.source.clone(), e.target.clone(), e.label.clone()))
        .collect();
    assert_eq!(
        edges,
        vec![
            ("inherit_edge_0".to_string(), "B".to_string(), "A".to_string(), Some("extends".to_string())),
            ("inherit_edge_1".to_string(), "B".to_string(), "C".to_string(), Some("extends".to_string())),
            ("call_edge_2".to_string(), "main".to_string(), "run".to_string(), Some("calls".to_string())),
        ]
    );
    let all = answer_knowledge_graph(&KnowledgeGraphRequest { limit: None }, &refs);
    assert_eq!(all.graph.nodes.len(), 6);
    assert_eq!(all.graph.edges.len(), 4);
    let none = answer_knowledge_graph(&KnowledgeGraphRequest { limit: Some(0) }, &refs);
    assert_eq!(none.graph.nodes.len(), 0);
    assert_eq!(none.graph.edges.len(), 0);
}

#[test]
fn rule_as_a_document() {
    let rule = Rule {
        id: "r-1".to_string(),
        name: "Name".to_string(),
        description: "Desc".to_string(),
        severity: Severity::Medium,
        language: "go".to_string(),
        pattern: Some("p.*".to_string()),
        query: None,
        category: Some("cat".to_string()),
        cwe: None,
    };
    let shown = RuleResponse::from_rule(rule);
    assert_eq!(shown.severity, "medium");
    assert_eq!(
        rule_to_yaml(&shown),
        "id: r-1\nname: Name\ndescription: Desc\nseverity: medium\nlanguage: go\ncategory: cat\npattern: p.*\n"
    );
}

#[test]
fn tool_timeouts() {
    assert_eq!(get_tool_timeout("read_file"), 10);
    assert_eq!(get_tool_timeout("search_symbol"), 10);
    assert_eq!(get_tool_timeout("get_class_hierarchy"), 30);
    assert_eq!(get_tool_timeout("search_files"), 30);
    assert_eq!(get_tool_timeout("get_call_graph"), 60);
    assert_eq!(get_tool_timeout("build_ast_index"), 180);
    assert_eq!(get_tool_timeout("verify_finding"), 180);
    assert_eq!(get_tool_timeout("anything else"), 60);
    assert_eq!(get_tool_timeout(""), 60);
    assert_eq!(MCP_PORT, 8338);
    assert_eq!(MAX_CONCURRENT_REQUESTS, 3);
}

#[test]
fn overdue_calls_are_taken_out() {
    let req = |id: u64, at: u64| RequestInfo { id, tool_name: format!("t{}", id), started_at: at };
    let mut active = vec![req(1, 0), req(2, 700), req(3, 699), req(4, 2000), req(5, 100)];
    let gone = check_timeout(&mut active, 1000, 300);
    assert_eq!(gone, vec![1, 3, 5]);
    let left: Vec<(u64, String)> = active.iter().map(|r| (r.id, r.tool_name.clone())).collect();
    assert_eq!(left, vec![(2, "t2".to_string()), (4, "t4".to_string())]);
    assert_eq!(check_timeout(&mut active, 1000, 300), Vec::<u64>::new());
    assert_eq!(active.len(), 2);
}

#[test]
fn cache_directory_is_named_by_the_repository() {
    let mut m = CacheManager::new(".deepaudit_cache");
    assert_eq!(m.get_cache_dir(), ".deepaudit_cache");
    assert!(m.get_repository().is_none());
    m.use_repository("/home/user/project");
    // the first sixteen hexadecimal digits of the SHA-1 digest of the path
    let dir = m.get_cache_dir().to_string();
    let key = dir.rsplit(std::path::MAIN_SEPARATOR).next().unwrap().to_string();
    assert_eq!(key.len(), 16);
    assert!(key.chars().all(|c| c.is_ascii_hexdigit() && !c.is_ascii_uppercase()));
    assert!(dir.starts_with(".deepaudit_cache"));
    assert_eq!(dir.len(), ".deepaudit_cache".len() + 1 + 16);
    assert_eq!(m.get_repository().cloned(), Some("/home/user/project".to_string()));
    let mut abc = CacheManager::new("base");
    abc.use_repository("abc");
    assert!(abc.get_cache_dir().ends_with("a9993e364706816a"));
    assert!(abc.index_file().ends_with("ast_index.bin"));
    assert!(abc.report_file().ends_with("analysis_report.json"));
    assert!(abc.index_file().contains("a9993e364706816a"));
    let mut other = CacheManager::new("base");
    other.use_repository("abd");
    assert_ne!(other.get_cache_dir(), abc.get_cache_dir());
    assert!(m.is_file_changed(5, 6));
    assert!(m.is_file_changed(6, 5));
    assert!(!m.is_file_changed(5, 5));
    assert_eq!(take_prefix("abcdef", 3), "abc");
    assert_eq!(take_prefix("ab", 3), "ab");
}

#[test]
fn errors_in_words() {
    assert_eq!(CoreError::Io("gone".to_string()).message(), "IO error: gone");
    assert_eq!(CoreError::Parse("bad".to_string()).message(), "Parse error: bad");
    assert_eq!(CoreError::Ast("x".to_string()).message(), "AST error: x");
    assert_eq!(CoreError::Scanner("y".to_string()).message(), "Scanner error: y");
}

#[test]
fn string_map_keeps_insertion_order() {
    let mut m: StrMap<u32> = StrMap::new();
    m.insert("b".to_string(), 1);
    m.insert("a".to_string(), 2);
    m.insert("b".to_string(), 3);
    assert_eq!(m.len(), 2);
    assert_eq!(m.key_at(0), "b");
    assert_eq!(*m.value_at(0), 3);
    assert_eq!(m.find("a"), Some(1));
    assert!(m.contains_key("a"));
    assert_eq!(m.get("zz"), None);
    assert_eq!(m.remove("b"), Some(3));
    assert_eq!(m.remove("b"), None);
    assert_eq!(m.key_at(0), "a");
    m.clear();
    assert_eq!(m.len(), 0);
    assert!(StrMap::from_entries(vec![("x".to_string(), 1), ("x".to_string(), 2)]).is_none());
    let ok = StrMap::from_entries(vec![("x".to_string(), 1), ("y".to_string(), 2)]).unwrap();
    assert_eq!(ok.get("y"), Some(&2));
}

#[test]
fn rules_are_counted_by_severity_language_and_category() {
    let rule = |sev: Severity, lang: &str, cat: Option<&str>| Rule {
        id: String::new(),
        name: String::new(),
        description: String::new(),
        severity: sev,
        language: lang.to_string(),
        pattern: None,
        query: None,
        category: cat.map(|c| c.to_string()),
        cwe: None,
    };
    let rules = vec![
        rule(Severity::High, "python", Some("secrets")),
        rule(Severity::Low, "go", None),
        rule(Severity::High, "python", Some("injection")),
        rule(Severity::High, "java", Some("secrets")),
    ];
    let st = rule_stats(&rules);
    assert_eq!(st.total, 4);
    let list = |m: &StrMap<usize>| -> Vec<(String, usize)> {
        (0..m.len()).map(|i| (m.key_at(i).clone(), *m.value_at(i))).collect()
    };
    assert_eq!(list(&st.by_severity), vec![("high".to_string(), 3), ("low".to_string(), 1)]);
    assert_eq!(
        list(&st.by_language),
        vec![("python".to_string(), 2), ("go".to_string(), 1), ("java".to_string(), 1)]
    );
    assert_eq!(
        list(&st.by_category),
        vec![("secrets".to_string(), 2), ("injection".to_string(), 1)]
    );
    assert_eq!(rule_stats(&Vec::new()).total, 0);
}
