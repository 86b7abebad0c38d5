use ctx_audit_core::cache::CacheData;
use ctx_audit_core::engine::{
    merge_file, ASTEngine, EngineError, Extraction, FileInput, FileState, UpdateOutcome,
};
use ctx_audit_core::parser::ParseError;
use ctx_audit_core::persist::{decode_cache, encode_cache};
use ctx_audit_core::symbol::{meta_get, meta_insert, new_metadata, Field, Symbol, SymbolKind};

fn present(mtime: u64, content: &str) -> FileState {
    FileState::Present { mtime, content: content.to_string() }
}

fn attached() -> ASTEngine {
    let mut engine = ASTEngine::new(".cache");
    engine.use_repository("/repo", None, "2024-05-01T10:00:00+00:00".to_string());
    engine
}

#[test]
fn operations_before_attach_report_no_index() {
    let mut engine = ASTEngine::new(".cache");
    assert!(!engine.is_loaded());
    assert!(matches!(engine.get_statistics(), Err(EngineError::IndexNotLoaded)));
    assert!(matches!(engine.search_symbols("x"), Err(EngineError::IndexNotLoaded)));
    assert!(matches!(engine.find_call_sites("x"), Err(EngineError::IndexNotLoaded)));
    assert!(matches!(engine.get_call_graph("x", 2), Err(EngineError::IndexNotLoaded)));
    assert!(matches!(engine.get_file_structure("x"), Err(EngineError::IndexNotLoaded)));
    assert!(matches!(engine.get_class_hierarchy("x"), Err(EngineError::IndexNotLoaded)));
    assert!(matches!(engine.generate_report("/r"), Err(EngineError::IndexNotLoaded)));
    assert!(matches!(engine.save_cache(), Err(EngineError::IndexNotLoaded)));
    assert!(matches!(engine.needs_update("a.py", 1), Err(EngineError::IndexNotLoaded)));
    assert!(matches!(
        engine.update_file("a.py", &present(1, "def f(): pass\n")),
        Err(EngineError::IndexNotLoaded)
    ));
    assert!(matches!(engine.update_file("a.py", &FileState::Missing), Err(EngineError::IndexNotLoaded)));
    assert!(matches!(engine.scan_files(&Vec::new()), Err(EngineError::IndexNotLoaded)));
}

#[test]
fn attach_starts_an_empty_index() {
    let engine = attached();
    assert!(engine.is_loaded());
    let q = engine.query_engine.as_ref().unwrap();
    assert_eq!(q.cache.index.len(), 0);
    assert_eq!(q.cache.class_map.len(), 0);
    assert_eq!(q.cache.build_time, "2024-05-01T10:00:00+00:00");
    assert_eq!(engine.cache_manager.get_repository().cloned(), Some("/repo".to_string()));
}

#[test]
fn update_twice_without_change_extracts_once() {
    let mut engine = attached();
    let state = present(100, "def f():\n    g()\n");
    assert_eq!(engine.needs_update("a.py", 100).unwrap(), true);
    assert_eq!(engine.update_file("a.py", &state).unwrap(), UpdateOutcome::Indexed);
    let before = engine.save_cache().unwrap();
    assert_eq!(engine.needs_update("a.py", 100).unwrap(), false);
    assert_eq!(engine.update_file("a.py", &state).unwrap(), UpdateOutcome::Unchanged);
    // even a different text is not looked at while the time stands still
    assert_eq!(
        engine.update_file("a.py", &present(100, "def other(): pass\n")).unwrap(),
        UpdateOutcome::Unchanged
    );
    assert_eq!(engine.save_cache().unwrap(), before);
    assert_eq!(engine.get_file_structure("a.py").unwrap().len(), 2);
}

#[test]
fn changed_mtime_extracts_again() {
    let mut engine = attached();
    engine.update_file("a.py", &present(100, "def f(): pass\n")).unwrap();
    assert_eq!(engine.needs_update("a.py", 200).unwrap(), true);
    assert_eq!(engine.needs_update("a.py", 50).unwrap(), true);
    let r = engine.update_file("a.py", &present(200, "def f(): pass\ndef g(): pass\n")).unwrap();
    assert_eq!(r, UpdateOutcome::Indexed);
    let q = engine.query_engine.as_ref().unwrap();
    assert_eq!(q.cache.index.get("a.py").unwrap().mtime, 200);
    assert_eq!(q.cache.index.get("a.py").unwrap().symbols.len(), 2);
    assert_eq!(q.cache.index.len(), 1);
}

#[test]
fn missing_file_is_removed_with_its_types() {
    let mut engine = attached();
    engine.update_file("a.py", &present(1, "class A:\n    pass\n")).unwrap();
    engine.update_file("b.py", &present(1, "class B:\n    pass\n")).unwrap();
    {
        let q = engine.query_engine.as_ref().unwrap();
        assert_eq!(q.cache.class_map.get("A").cloned(), Some("a.py".to_string()));
        assert_eq!(q.cache.class_map.len(), 2);
    }
    assert_eq!(engine.update_file("a.py", &FileState::Missing).unwrap(), UpdateOutcome::Removed);
    let q = engine.query_engine.as_ref().unwrap();
    assert!(q.cache.index.get("a.py").is_none());
    assert!(q.cache.class_map.get("A").is_none());
    assert_eq!(q.cache.class_map.get("B").cloned(), Some("b.py".to_string()));
    assert_eq!(engine.update_file("zzz.py", &FileState::Missing).unwrap(), UpdateOutcome::Removed);
}

#[test]
fn renamed_type_leaves_an_orphan_until_rebuilt() {
    let mut engine = attached();
    engine.update_file("a.py", &present(1, "class Old:\n    pass\n")).unwrap();
    engine.update_file("a.py", &present(2, "class New:\n    pass\n")).unwrap();
    {
        let q = engine.query_engine.as_ref().unwrap();
        assert_eq!(q.cache.class_map.get("Old").cloned(), Some("a.py".to_string()));
        assert_eq!(q.cache.class_map.get("New").cloned(), Some("a.py".to_string()));
        assert!(q.get_class_hierarchy("Old").is_err());
        assert!(q.get_class_hierarchy("New").is_ok());
    }
    let q = engine.query_engine.as_mut().unwrap();
    q.rebuild_class_map();
    assert!(q.cache.class_map.get("Old").is_none());
    assert_eq!(q.cache.class_map.len(), 1);
}

#[test]
fn failed_extraction_leaves_the_index_alone() {
    let mut engine = attached();
    engine.update_file("a.py", &present(1, "def f(): pass\n")).unwrap();
    let before = engine.save_cache().unwrap();
    match engine.update_file("notes.txt", &present(5, "hello")) {
        Err(EngineError::Extract(ParseError::UnsupportedLanguage(ext))) => assert_eq!(ext, "txt"),
        other => panic!("unexpected: {:?}", other),
    }
    assert_eq!(engine.save_cache().unwrap(), before);
}

#[test]
fn scan_skips_what_it_cannot_index() {
    let mut engine = attached();
    let files = vec![
        FileInput { path: "a.py".to_string(), mtime: 1, content: "def f(): g()\n".to_string() },
        FileInput { path: "notes.txt".to_string(), mtime: 1, content: "hello".to_string() },
        FileInput { path: "b.rs".to_string(), mtime: 1, content: "fn main() {}\n".to_string() },
        FileInput { path: "README".to_string(), mtime: 1, content: "x".to_string() },
        FileInput { path: "c.json".to_string(), mtime: 1, content: "{}".to_string() },
    ];
    let summary = engine.scan_files(&files).unwrap();
    assert_eq!(summary.discovered, 3);
    assert_eq!(summary.processed, 3);
    let q = engine.query_engine.as_ref().unwrap();
    assert_eq!(q.cache.index.len(), 3);
    assert!(q.cache.index.get("notes.txt").is_none());
    assert_eq!(q.cache.build_time, "2024-05-01T10:00:00+00:00");
    let again = engine.scan_files(&files).unwrap();
    assert_eq!(again.discovered, 3);
    assert_eq!(again.processed, 3);
    assert_eq!(engine.scan_files(&Vec::new()).unwrap().discovered, 0);
}

fn rich_cache() -> CacheData {
    let mut cache = CacheData::empty("2020-02-02T02:02:02Z".to_string());
    let mut md = new_metadata();
    meta_insert(&mut md, "ownerClass".to_string(), "K\u{00e4}se".to_string());
    meta_insert(&mut md, "callerFunction".to_string(), "".to_string());
    let mut fmd = new_metadata();
    meta_insert(&mut fmd, "fullType".to_string(), "List<String>".to_string());
    let field = Field {
        name: "items".to_string(),
        field_type: "List<String>".to_string(),
        start_line: 4,
        end_line: 5,
        modifiers: vec!["private".to_string(), "final".to_string()],
        metadata: fmd,
    };
    let mut s = Symbol::new(
        "K\u{00e4}se\u{1F9C0}".to_string(),
        SymbolKind::Interface,
        "src/\u{65e5}\u{672c}.java".to_string(),
        3,
        "interface K { }".to_string(),
    )
    .with_end_line(u32::MAX)
    .with_parent_classes(vec!["A".to_string(), "".to_string()])
    .with_package("com.x".to_string())
    .with_modifiers(vec!["public".to_string()])
    .with_fields(vec![field])
    .with_metadata(md);
    s.subclasses = vec!["Sub".to_string()];
    let plain =
        Symbol::new("f".to_string(), SymbolKind::Function, "b.py".to_string(), 0, String::new());
    merge_file(&mut cache, "src/\u{65e5}\u{672c}.java", u64::MAX, vec![s]);
    merge_file(&mut cache, "b.py", 0, vec![plain]);
    merge_file(&mut cache, "empty.py", 7, vec![]);
    cache
}

#[test]
fn saved_index_reads_back_part_for_part() {
    let cache = rich_cache();
    let bytes = encode_cache(&cache);
    let back = decode_cache(&bytes).unwrap();
    assert_eq!(back.build_time, cache.build_time);
    assert_eq!(back.index.len(), 3);
    assert_eq!(back.class_map.len(), 1);
    for i in 0..3 {
        assert_eq!(back.index.key_at(i), cache.index.key_at(i));
        let a = back.index.value_at(i);
        let b = cache.index.value_at(i);
        assert_eq!(a.mtime, b.mtime);
        assert_eq!(a.symbols.len(), b.symbols.len());
    }
    let s = &back.index.get("src/\u{65e5}\u{672c}.java").unwrap().symbols[0];
    let o = &cache.index.get("src/\u{65e5}\u{672c}.java").unwrap().symbols[0];
    assert_eq!(s.name, o.name);
    assert_eq!(s.kind, SymbolKind::Interface);
    assert_eq!(s.file_path, o.file_path);
    assert_eq!((s.line, s.start_line, s.end_line), (u32::MAX, 3, u32::MAX));
    assert_eq!(s.code, o.code);
    assert_eq!(s.parent_classes, o.parent_classes);
    assert_eq!(s.package, "com.x");
    assert_eq!(s.modifiers, o.modifiers);
    assert_eq!(s.subclasses, o.subclasses);
    assert_eq!(s.metadata.len(), 2);
    assert_eq!(s.metadata.key_at(0), "ownerClass");
    assert_eq!(meta_get(&s.metadata, "ownerClass").cloned(), Some("K\u{00e4}se".to_string()));
    assert_eq!(meta_get(&s.metadata, "callerFunction").cloned(), Some("".to_string()));
    assert_eq!(s.fields.len(), 1);
    assert_eq!(s.fields[0].name, "items");
    assert_eq!(s.fields[0].field_type, "List<String>");
    assert_eq!((s.fields[0].start_line, s.fields[0].end_line), (4, 5));
    assert_eq!(s.fields[0].modifiers, o.fields[0].modifiers);
    assert_eq!(
        meta_get(&s.fields[0].metadata, "fullType").cloned(),
        Some("List<String>".to_string())
    );
    assert_eq!(encode_cache(&back), bytes);
}

#[test]
fn empty_index_has_a_known_form() {
    let cache = CacheData::empty("t".to_string());
    let bytes = encode_cache(&cache);
    assert_eq!(
        bytes,
        vec![0, 0, 0, 0, 0, 0, 0, 0, 0, 0, 0, 0, 0, 0, 0, 0, 1, 0, 0, 0, 0, 0, 0, 0, 116]
    );
    let back = decode_cache(&bytes).unwrap();
    assert_eq!(back.build_time, "t");
    assert_eq!(back.index.len(), 0);
}

#[test]
fn damaged_bytes_stand_for_no_index() {
    let bytes = encode_cache(&rich_cache());
    assert!(decode_cache(&[]).is_none());
    assert!(decode_cache(&bytes[..bytes.len() - 1]).is_none());
    let mut longer = bytes.clone();
    longer.push(0);
    assert!(decode_cache(&longer).is_none());
    let mut huge = bytes.clone();
    huge[7] = 0xFF;
    assert!(decode_cache(&huge).is_none());
    // a text that is not UTF-8
    let bad = vec![0, 0, 0, 0, 0, 0, 0, 0, 0, 0, 0, 0, 0, 0, 0, 0, 1, 0, 0, 0, 0, 0, 0, 0, 0xFF];
    assert!(decode_cache(&bad).is_none());
    // the same path twice
    let mut cache = CacheData::empty("t".to_string());
    merge_file(&mut cache, "a", 1, vec![]);
    merge_file(&mut cache, "b", 1, vec![]);
    let mut twice = encode_cache(&cache);
    let at = twice.iter().position(|b| *b == b'b').unwrap();
    twice[at] = b'a';
    assert!(decode_cache(&twice).is_none());
}

#[test]
fn attach_takes_a_saved_index_or_starts_anew() {
    let bytes = encode_cache(&rich_cache());
    let mut engine = ASTEngine::new(".cache");
    engine.use_repository("/repo", Some(&bytes), "now".to_string());
    assert_eq!(engine.query_engine.as_ref().unwrap().cache.build_time, "2020-02-02T02:02:02Z");
    assert_eq!(engine.get_statistics().unwrap().total_nodes, 2);
    let mut fresh = ASTEngine::new(".cache");
    fresh.use_repository("/repo", Some(&bytes[..10]), "now".to_string());
    assert_eq!(fresh.query_engine.as_ref().unwrap().cache.build_time, "now");
    assert_eq!(fresh.get_statistics().unwrap().total_nodes, 0);
}

#[test]
fn a_missing_file_takes_only_its_own_class_entries() {
    let mut engine = attached();
    engine
        .update_file("P.java", &present(1, "class N {}\nclass P {}\n"))
        .unwrap();
    engine
        .update_file("Q.java", &present(1, "class N {}\nclass Q extends N {}\n"))
        .unwrap();
    {
        let q = engine.query_engine.as_ref().unwrap();
        assert_eq!(q.cache.class_map.get("N").cloned(), Some("Q.java".to_string()));
        assert_eq!(q.cache.class_map.get("P").cloned(), Some("P.java".to_string()));
    }
    assert_eq!(engine.update_file("P.java", &FileState::Missing).unwrap(), UpdateOutcome::Removed);
    let q = engine.query_engine.as_ref().unwrap();
    assert!(q.cache.index.get("P.java").is_none());
    assert!(q.cache.index.get("Q.java").is_some());
    assert_eq!(q.cache.class_map.get("N").cloned(), Some("Q.java".to_string()));
    assert_eq!(q.cache.class_map.get("Q").cloned(), Some("Q.java".to_string()));
    assert!(q.cache.class_map.get("P").is_none());
    let h = engine.get_class_hierarchy("Q").unwrap().unwrap();
    assert_eq!(h.class, "Q");
    assert_eq!(h.parents.len(), 1);
    assert_eq!(h.parents[0].name, "N");
}

#[test]
fn a_changed_file_gets_its_new_symbols_and_time() {
    let mut engine = attached();
    engine.update_file("a.py", &present(7, "def old(): pass\n")).unwrap();
    assert_eq!(
        engine.update_file("a.py", &present(3, "def new(): pass\ndef other(): pass\n")).unwrap(),
        UpdateOutcome::Indexed
    );
    let q = engine.query_engine.as_ref().unwrap();
    let entry = q.cache.index.get("a.py").unwrap();
    assert_eq!(entry.mtime, 3);
    let names: Vec<&str> = entry.symbols.iter().map(|s| s.name.as_str()).collect();
    assert_eq!(names, vec!["new", "other"]);
    assert_eq!(q.cache.index.len(), 1);
}

#[test]
fn a_scan_counts_the_files_it_brought_up_to_date() {
    let mut engine = attached();
    engine.update_file("b.rs", &present(1, "fn main() {}\n")).unwrap();
    let files = vec![
        FileInput { path: "notes.txt".to_string(), mtime: 1, content: "hello".to_string() },
        FileInput { path: "a.py".to_string(), mtime: 1, content: "def f(): g()\n".to_string() },
        FileInput { path: "b.rs".to_string(), mtime: 1, content: "fn other() {}\n".to_string() },
        FileInput { path: "a.py".to_string(), mtime: 2, content: "def h(): pass\n".to_string() },
    ];
    let summary = engine.scan_files(&files).unwrap();
    assert_eq!(summary.discovered, 3);
    assert_eq!(summary.processed, 3);
    let q = engine.query_engine.as_ref().unwrap();
    assert_eq!(q.cache.index.len(), 2);
    assert_eq!(q.cache.index.get("a.py").unwrap().mtime, 2);
    assert_eq!(q.cache.index.get("a.py").unwrap().symbols[0].name, "h");
    assert_eq!(q.cache.index.get("b.rs").unwrap().symbols[0].name, "main");
}

#[test]
fn extracted_files_are_stored_in_order_and_counted() {
    let mut engine = ASTEngine::new(".cache");
    assert!(matches!(engine.store_extracted(Vec::new()), Err(EngineError::IndexNotLoaded)));
    let mut engine = attached();
    let first = engine.parser.parse_file("A.java", "class N {}\n").unwrap();
    let second = engine.parser.parse_file("B.java", "class N {}\nclass M {}\n").unwrap();
    let batch = vec![
        Extraction::Failed,
        Extraction::Fresh { path: "A.java".to_string(), mtime: 4, symbols: first },
        Extraction::Current,
        Extraction::Fresh { path: "B.java".to_string(), mtime: 5, symbols: second },
        Extraction::Failed,
    ];
    assert_eq!(engine.store_extracted(batch).unwrap(), 3);
    let q = engine.query_engine.as_ref().unwrap();
    assert_eq!(q.cache.index.len(), 2);
    assert_eq!(q.cache.index.get("A.java").unwrap().mtime, 4);
    assert_eq!(q.cache.index.get("B.java").unwrap().symbols.len(), 2);
    assert_eq!(q.cache.class_map.get("N").cloned(), Some("B.java".to_string()));
    assert_eq!(q.cache.class_map.get("M").cloned(), Some("B.java".to_string()));
    assert_eq!(engine.store_extracted(Vec::new()).unwrap(), 0);
}
