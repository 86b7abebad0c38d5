use ctx_audit_core::extract::{
    extract_generic_symbols, extract_java_symbols, extract_last_name, extract_symbols, Grammar,
};
use ctx_audit_core::parser::{is_supported_file, ASTParser, ParseError};
use ctx_audit_core::symbol::{meta_get, Symbol, SymbolKind};
use ctx_audit_core::syntax::SyntaxNode;
use ctx_audit_core::treesitter::{build_subtree, capture_rows, convert_tree, text_between, RawCapture, RawNode};

fn meta(s: &Symbol, key: &str) -> Option<String> {
    meta_get(&s.metadata, key).cloned()
}

#[test]
fn last_name_strips_qualifiers() {
    assert_eq!(extract_last_name("a.b.c"), "c");
    assert_eq!(extract_last_name("  foo  "), "foo");
    assert_eq!(extract_last_name("std::fs::read"), "read");
    assert_eq!(extract_last_name("p->next"), "next");
    assert_eq!(extract_last_name("a?.b"), "b");
    assert_eq!(extract_last_name("   "), "");
    assert_eq!(extract_last_name("x."), "");
    assert_eq!(extract_last_name("a:::b"), ":b");
}

#[test]
fn python_source_gives_functions_and_calls() {
    let parser = ASTParser::new();
    let symbols = parser.parse_file("a.py", "def f():\n    g()\n\ndef g():\n    pass\n").unwrap();
    let names: Vec<(String, SymbolKind)> =
        symbols.iter().map(|s| (s.name.clone(), s.kind)).collect();
    assert_eq!(
        names,
        vec![
            ("f".to_string(), SymbolKind::Function),
            ("g".to_string(), SymbolKind::MethodCall),
            ("g".to_string(), SymbolKind::Function),
        ]
    );
    assert_eq!(symbols[0].start_line, 1);
    assert_eq!(symbols[0].end_line, 2);
    assert_eq!(symbols[0].line, 2);
    assert_eq!(symbols[0].file_path, "a.py");
    assert_eq!(meta(&symbols[0], "callerFunction"), Some("f".to_string()));
    assert_eq!(meta(&symbols[0], "ownerClass"), None);
    assert_eq!(symbols[1].start_line, 2);
    assert_eq!(symbols[1].code, "g()");
    assert_eq!(meta(&symbols[1], "callerFunction"), Some("f".to_string()));
    assert_eq!(meta(&symbols[1], "callerClass"), None);
    assert_eq!(symbols[2].start_line, 4);
}

#[test]
fn python_method_inside_class_records_owner() {
    let parser = ASTParser::new();
    let src = "class A:\n    def m(self):\n        self.helper.run()\n";
    let symbols = parser.parse_file("pkg/mod.py", src).unwrap();
    assert_eq!(symbols.len(), 3);
    assert_eq!(symbols[0].name, "A");
    assert_eq!(symbols[0].kind, SymbolKind::Class);
    assert_eq!(symbols[1].name, "m");
    assert_eq!(symbols[1].kind, SymbolKind::Method);
    assert_eq!(meta(&symbols[1], "ownerClass"), Some("A".to_string()));
    assert_eq!(symbols[2].name, "run");
    assert_eq!(symbols[2].kind, SymbolKind::MethodCall);
    assert_eq!(meta(&symbols[2], "callerClass"), Some("A".to_string()));
    assert_eq!(meta(&symbols[2], "callerFunction"), Some("m".to_string()));
}

#[test]
fn rust_source_gives_structs_functions_and_calls() {
    let parser = ASTParser::new();
    let src = "struct P { x: u32 }\nfn main() {\n    helper::run(1);\n}\n";
    let symbols = parser.parse_file("src/main.rs", src).unwrap();
    let names: Vec<(String, SymbolKind)> =
        symbols.iter().map(|s| (s.name.clone(), s.kind)).collect();
    assert_eq!(
        names,
        vec![
            ("P".to_string(), SymbolKind::Struct),
            ("main".to_string(), SymbolKind::Function),
            ("run".to_string(), SymbolKind::MethodCall),
        ]
    );
    assert_eq!(meta(&symbols[2], "callerFunction"), Some("main".to_string()));
    assert_eq!(symbols[2].start_line, 3);
}

#[test]
fn javascript_source_gives_classes_methods_and_calls() {
    let parser = ASTParser::new();
    let src = "class A {\n  m() { this.n(); }\n}\nfunction f() { g(); }\n";
    let symbols = parser.parse_file("x.js", src).unwrap();
    let names: Vec<(String, SymbolKind)> =
        symbols.iter().map(|s| (s.name.clone(), s.kind)).collect();
    assert_eq!(
        names,
        vec![
            ("A".to_string(), SymbolKind::Class),
            ("m".to_string(), SymbolKind::Method),
            ("n".to_string(), SymbolKind::MethodCall),
            ("f".to_string(), SymbolKind::Function),
            ("g".to_string(), SymbolKind::MethodCall),
        ]
    );
    assert_eq!(meta(&symbols[1], "callerClass"), Some("A".to_string()));
    assert_eq!(meta(&symbols[2], "callerFunction"), Some("m".to_string()));
    assert_eq!(meta(&symbols[4], "callerFunction"), Some("f".to_string()));
    assert_eq!(meta(&symbols[4], "callerClass"), None);
}

#[test]
fn typescript_shares_the_javascript_rules() {
    let parser = ASTParser::new();
    let symbols = parser.parse_file("x.ts", "function f(a: number) { g(a); }\n").unwrap();
    assert_eq!(symbols.len(), 2);
    assert_eq!(symbols[0].name, "f");
    assert_eq!(symbols[1].name, "g");
}

#[test]
fn java_source_gives_types_methods_and_calls() {
    let parser = ASTParser::new();
    let src = "package com.acme.app;\n\nclass B implements I, J {\n    private int n;\n    void m() { helper.run(); }\n}\n";
    let symbols = parser.parse_file("B.java", src).unwrap();
    let names: Vec<(String, SymbolKind)> =
        symbols.iter().map(|s| (s.name.clone(), s.kind)).collect();
    assert_eq!(
        names,
        vec![
            ("B".to_string(), SymbolKind::Class),
            ("m".to_string(), SymbolKind::Method),
            ("run".to_string(), SymbolKind::MethodCall),
        ]
    );
    assert_eq!(symbols[0].package, "com.acme.app");
    assert_eq!(symbols[0].start_line, 3);
    assert_eq!(symbols[0].end_line, 6);
    assert_eq!(symbols[0].fields.len(), 1);
    assert_eq!(symbols[0].fields[0].name, "n");
    assert_eq!(symbols[0].fields[0].field_type, "int");
    assert_eq!(symbols[0].fields[0].start_line, 4);
    assert_eq!(
        meta_get(&symbols[0].fields[0].metadata, "fullType").cloned(),
        Some("int".to_string())
    );
    assert_eq!(symbols[0].parent_classes, vec!["I".to_string(), "J".to_string()]);
    assert_eq!(meta(&symbols[1], "ownerClass"), Some("B".to_string()));
    assert_eq!(symbols[1].package, "com.acme.app");
    assert_eq!(meta(&symbols[2], "callerClass"), Some("B".to_string()));
    assert_eq!(meta(&symbols[2], "callerMethod"), Some("m".to_string()));
}

#[test]
fn grammar_without_rules_gives_no_symbols() {
    let parser = ASTParser::new();
    assert_eq!(parser.parse_file("data.json", "{\"a\": [1, 2]}").unwrap().len(), 0);
    assert_eq!(parser.parse_file("main.go", "package main\nfunc main() {}\n").unwrap().len(), 0);
    assert_eq!(parser.parse_file("a.c", "int main() { return 0; }\n").unwrap().len(), 0);
}

#[test]
fn unsupported_extension_is_reported() {
    let parser = ASTParser::new();
    match parser.parse_file("notes.txt", "hello") {
        Err(ParseError::UnsupportedLanguage(ext)) => assert_eq!(ext, "txt"),
        other => panic!("unexpected: {:?}", other.map(|v| v.len())),
    }
    match parser.parse_file("Makefile", "all:") {
        Err(ParseError::UnsupportedLanguage(ext)) => assert_eq!(ext, ""),
        other => panic!("unexpected: {:?}", other.map(|v| v.len())),
    }
    assert!(!parser.supports_extension("txt"));
    assert!(parser.supports_extension("py"));
    assert!(parser.supports_extension("tsx"));
}

#[test]
fn supported_files_are_told_by_extension() {
    assert!(is_supported_file("a/b/c.py"));
    assert!(is_supported_file("x.hpp"));
    assert!(is_supported_file("x.vue"));
    assert!(!is_supported_file("x.PY"));
    assert!(!is_supported_file("x.txt"));
    assert!(!is_supported_file("noext"));
    assert!(!is_supported_file(".py"));
}

#[test]
fn long_snippets_are_clipped() {
    let parser = ASTParser::new();
    let body = "    x = 1\n".repeat(60);
    let src = format!("def big():\n{}", body);
    let symbols = parser.parse_file("big.py", &src).unwrap();
    assert_eq!(symbols[0].name, "big");
    assert_eq!(symbols[0].code.chars().count(), 203);
    assert!(symbols[0].code.ends_with("..."));
    assert_eq!(&symbols[0].code[..10], "def big():");
}

#[test]
fn hand_built_tree_follows_the_rules() {
    let name = SyntaxNode::leaf("identifier", "Foo", 0, 0).in_field("name");
    let callee = SyntaxNode::leaf("attribute", "self.bar", 2, 2).in_field("function");
    let call = SyntaxNode::leaf("call", "self.bar()", 2, 2).with_children(vec![callee]);
    let fname = SyntaxNode::leaf("identifier", "run", 1, 1).in_field("name");
    let func = SyntaxNode::leaf("function_definition", "def run(self): self.bar()", 1, 2)
        .with_children(vec![fname, call]);
    let class = SyntaxNode::leaf("class_definition", "class Foo: ...", 0, 2)
        .with_children(vec![name, func]);
    let root = SyntaxNode::leaf("module", "class Foo: ...", 0, 2).with_children(vec![class]);
    let symbols = extract_symbols(Grammar::Python, &root, "f.py", "");
    assert_eq!(symbols.len(), 3);
    assert_eq!(symbols[0].name, "Foo");
    assert_eq!(symbols[1].kind, SymbolKind::Method);
    assert_eq!(symbols[1].start_line, 2);
    assert_eq!(symbols[1].end_line, 3);
    assert_eq!(symbols[2].name, "bar");
    assert_eq!(meta(&symbols[2], "callerClass"), Some("Foo".to_string()));
    assert_eq!(meta(&symbols[2], "callerFunction"), Some("run".to_string()));
    assert_eq!(extract_symbols(Grammar::Other, &root, "f.py", "").len(), 0);
    assert_eq!(extract_symbols(Grammar::Rust, &root, "f.py", "").len(), 0);
}

#[test]
fn node_that_ends_before_it_starts_keeps_its_start() {
    let name = SyntaxNode::leaf("identifier", "S", 7, 7).in_field("name");
    let item = SyntaxNode::leaf("struct_item", "struct S;", 7, 3).with_children(vec![name]);
    let symbols = extract_symbols(Grammar::Rust, &item, "s.rs", "");
    assert_eq!(symbols.len(), 1);
    assert_eq!(symbols[0].start_line, 8);
    assert_eq!(symbols[0].end_line, 8);
}

#[test]
fn hand_built_java_class_has_modifiers_parents_and_fields() {
    let leaf = SyntaxNode::leaf;
    let modifiers = leaf("modifiers", "public final", 1, 1)
        .with_children(vec![leaf("public", "public", 1, 1), leaf("final", "final", 1, 1)]);
    let name = leaf("identifier", "Shape", 1, 1).in_field("name");
    let superclass = leaf("superclass", "extends Base", 1, 1)
        .with_children(vec![
            leaf("extends", "extends", 1, 1),
            leaf("type_identifier", "Base", 1, 1),
        ])
        .in_field("superclass");
    let list = leaf("type_list", "A, B<T>, x.C", 1, 1).with_children(vec![
        leaf("type_identifier", "A", 1, 1),
        leaf(",", ",", 1, 1),
        leaf("generic_type", "B<T>", 1, 1),
        leaf(",", ",", 1, 1),
        leaf("scoped_type_identifier", "x.C", 1, 1),
    ]);
    let interfaces = leaf("super_interfaces", "implements A, B<T>, x.C", 1, 1)
        .with_children(vec![leaf("implements", "implements", 1, 1), list])
        .in_field("interfaces");
    let declarator = leaf("variable_declarator", "n = 1", 2, 2)
        .with_children(vec![leaf("identifier", "n", 2, 2).in_field("name")])
        .in_field("declarator");
    let with_type = leaf("field_declaration", "int n = 1;", 2, 2).with_children(vec![
        leaf("modifiers", "private", 2, 2).with_children(vec![leaf("private", "private", 2, 2)]),
        leaf("integral_type", "int", 2, 2).in_field("type"),
        declarator,
    ]);
    let untyped = leaf("field_declaration", "m;", 3, 3).with_children(vec![leaf(
        "variable_declarator",
        "m",
        3,
        3,
    )
    .with_children(vec![leaf("identifier", "m", 3, 3).in_field("name")])
    .in_field("declarator")]);
    let nameless = leaf("field_declaration", ";", 4, 4)
        .with_children(vec![leaf("variable_declarator", "", 4, 4).in_field("declarator")]);
    let call = leaf("method_invocation", " a.b.run() ", 5, 5);
    let method = leaf("method_declaration", "void go() { a.b.run(); }", 5, 5)
        .with_children(vec![leaf("identifier", "go", 5, 5).in_field("name"), call]);
    let body = leaf("class_body", "{ ... }", 1, 6)
        .with_children(vec![with_type, untyped, nameless, method])
        .in_field("body");
    let class = leaf("class_declaration", "public final class Shape ...", 1, 6)
        .with_children(vec![modifiers, name, superclass, interfaces, body]);
    let symbols = extract_java_symbols("Shape.java", "geo", &class);
    assert_eq!(symbols.len(), 3);
    let c = &symbols[0];
    assert_eq!(c.kind, SymbolKind::Class);
    assert_eq!(c.package, "geo");
    assert_eq!((c.start_line, c.end_line), (2, 7));
    assert_eq!(c.modifiers, vec!["public".to_string(), "final".to_string()]);
    assert_eq!(
        c.parent_classes,
        vec!["Base".to_string(), "A".to_string(), "B<T>".to_string(), "x.C".to_string()]
    );
    assert_eq!(c.fields.len(), 2);
    assert_eq!(c.fields[0].name, "n");
    assert_eq!(c.fields[0].field_type, "int");
    assert_eq!(c.fields[0].modifiers, vec!["private".to_string()]);
    assert_eq!((c.fields[0].start_line, c.fields[0].end_line), (3, 3));
    assert_eq!(c.fields[1].name, "m");
    assert_eq!(c.fields[1].field_type, "Unknown");
    assert_eq!(meta_get(&c.fields[1].metadata, "fullType").cloned(), Some("Unknown".to_string()));
    assert_eq!(symbols[1].name, "go");
    assert_eq!(symbols[1].kind, SymbolKind::Method);
    assert_eq!(meta(&symbols[1], "ownerClass"), Some("Shape".to_string()));
    assert_eq!(symbols[2].name, "run()");
    assert_eq!(meta(&symbols[2], "callerMethod"), Some("go".to_string()));
    assert_eq!(meta(&symbols[2], "callerClass"), Some("Shape".to_string()));
    assert_eq!(extract_generic_symbols("Shape.java", &class).len(), 0);
}

#[test]
fn parts_of_a_text_begin_and_end_between_characters() {
    let text = "h\u{e9}llo";
    assert_eq!(text_between(text, 0, 1), Some("h".to_string()));
    assert_eq!(text_between(text, 1, 3), Some("\u{e9}".to_string()));
    assert_eq!(text_between(text, 3, 6), Some("llo".to_string()));
    assert_eq!(text_between(text, 0, 6), Some(text.to_string()));
    assert_eq!(text_between(text, 2, 2), None);
    assert_eq!(text_between(text, 6, 6), Some(String::new()));
    assert_eq!(text_between(text, 1, 2), None);
    assert_eq!(text_between(text, 2, 3), None);
    assert_eq!(text_between(text, 3, 2), None);
    assert_eq!(text_between(text, 0, 7), None);
    assert_eq!(text_between("", 0, 0), Some(String::new()));
}

#[test]
fn java_parents_are_the_type_names() {
    let parser = ASTParser::new();
    let src = "class ClassA {}\nclass ClassB extends ClassA implements I1, I2 { void m() { this.n(); } }\n";
    let symbols = parser.parse_file("B.java", src).unwrap();
    let a = symbols.iter().find(|s| s.name == "ClassA").unwrap();
    assert_eq!(a.kind, SymbolKind::Class);
    assert_eq!(a.start_line, 1);
    assert!(a.parent_classes.is_empty());
    let b = symbols.iter().find(|s| s.name == "ClassB").unwrap();
    assert_eq!(b.start_line, 2);
    assert_eq!(
        b.parent_classes,
        vec!["ClassA".to_string(), "I1".to_string(), "I2".to_string()]
    );
    let m = symbols.iter().find(|s| s.kind == SymbolKind::Method).unwrap();
    assert_eq!(m.name, "m");
    assert_eq!(meta(m, "ownerClass"), Some("ClassB".to_string()));
    let call = symbols.iter().find(|s| s.kind == SymbolKind::MethodCall).unwrap();
    assert_eq!(call.name, "n");
    assert_eq!(meta(call, "callerClass"), Some("ClassB".to_string()));
    assert_eq!(meta(call, "callerMethod"), Some("m".to_string()));
}

#[test]
fn java_modifiers_come_from_the_modifiers_node() {
    let parser = ASTParser::new();
    let src = "public final class X extends a.Base<T> {\n    private static int n;\n}\n";
    let symbols = parser.parse_file("X.java", src).unwrap();
    let x = &symbols[0];
    assert_eq!(x.name, "X");
    assert_eq!(x.modifiers, vec!["public".to_string(), "final".to_string()]);
    assert_eq!(x.parent_classes, vec!["a.Base<T>".to_string()]);
    assert_eq!(x.fields.len(), 1);
    assert_eq!(x.fields[0].modifiers, vec!["private".to_string(), "static".to_string()]);
}

#[test]
fn every_indexed_extension_has_its_grammar() {
    let parser = ASTParser::new();
    for ext in [
        "js", "jsx", "py", "java", "rs", "go", "ts", "tsx", "html", "htm", "vue", "css", "json",
        "c", "h", "cpp", "hpp", "cc",
    ] {
        assert!(parser.supports_extension(ext), "{}", ext);
    }
    assert!(!parser.supports_extension("txt"));
    assert!(!parser.supports_extension(""));
    assert!(!parser.supports_extension("JS"));
}

fn raw(kind: &str, field: Option<&str>, children: u32, bytes: (usize, usize), rows: (usize, usize)) -> RawNode {
    RawNode {
        kind: kind.to_string(),
        field: field.map(|f| f.to_string()),
        children,
        start_byte: bytes.0,
        end_byte: bytes.1,
        start_row: rows.0,
        end_row: rows.1,
    }
}

#[test]
fn a_list_of_nodes_gives_its_tree() {
    let content = "ab cd\nef";
    let nodes = vec![
        raw("root", None, 2, (0, 8), (0, 1)),
        raw("pair", Some("left"), 2, (0, 5), (0, 0)),
        raw("word", None, 0, (0, 2), (0, 0)),
        raw("word", Some("name"), 0, (3, 5), (0, 0)),
        raw("word", None, 0, (6, 8), (1, 1)),
    ];
    let root = convert_tree(&nodes, content).unwrap();
    assert_eq!(root.kind, "root");
    assert_eq!(root.field, None);
    assert_eq!(root.text, content);
    assert_eq!((root.start_row, root.end_row), (0, 1));
    assert_eq!(root.children.len(), 2);
    let pair = &root.children[0];
    assert_eq!(pair.kind, "pair");
    assert_eq!(pair.field, Some("left".to_string()));
    assert_eq!(pair.text, "ab cd");
    assert_eq!(pair.children.len(), 2);
    assert_eq!(pair.children[0].text, "ab");
    assert_eq!(pair.children[1].text, "cd");
    assert_eq!(pair.children[1].field, Some("name".to_string()));
    assert!(pair.children[1].children.is_empty());
    let last = &root.children[1];
    assert_eq!(last.text, "ef");
    assert_eq!((last.start_row, last.end_row), (1, 1));
    let (sub, behind) = build_subtree(&nodes, content, 1).unwrap();
    assert_eq!(sub.kind, "pair");
    assert_eq!(behind, 4);
    assert_eq!(build_subtree(&nodes, content, 4).unwrap().1, 5);
    assert!(build_subtree(&nodes, content, 5).is_none());
}

#[test]
fn a_list_that_ends_too_early_gives_no_tree() {
    let nodes = vec![raw("root", None, 2, (0, 1), (0, 0)), raw("leaf", None, 0, (0, 1), (0, 0))];
    assert!(convert_tree(&nodes, "x").is_none());
    assert!(convert_tree(&Vec::new(), "x").is_none());
    let deep = vec![raw("a", None, 1, (0, 1), (0, 0)), raw("b", None, 1, (0, 1), (0, 0))];
    assert!(convert_tree(&deep, "x").is_none());
}

#[test]
fn a_span_that_is_no_part_of_the_text_gives_an_empty_text() {
    let nodes = vec![raw("root", None, 0, (1, 2), (0, 0))];
    let root = convert_tree(&nodes, "h\u{e9}").unwrap();
    assert_eq!(root.text, "");
    let nodes = vec![raw("root", None, 0, (1, 3), (0, 0))];
    assert_eq!(convert_tree(&nodes, "h\u{e9}").unwrap().text, "\u{e9}");
}

#[test]
fn captures_become_hits_with_their_texts() {
    let found = vec![
        vec![
            RawCapture { index: 1, start_byte: 0, end_byte: 2, start_row: 0, end_row: 0 },
            RawCapture { index: 0, start_byte: 3, end_byte: 9, start_row: 0, end_row: 1 },
        ],
        Vec::new(),
    ];
    let hits = capture_rows(&found, "ab cd");
    assert_eq!(hits.len(), 2);
    assert_eq!(hits[0].len(), 2);
    assert_eq!(hits[0][0].index, 1);
    assert_eq!(hits[0][0].text, Some("ab".to_string()));
    assert_eq!((hits[0][0].start_row, hits[0][0].end_row), (0, 0));
    assert_eq!(hits[0][1].index, 0);
    assert_eq!(hits[0][1].text, None);
    assert_eq!((hits[0][1].start_row, hits[0][1].end_row), (0, 1));
    assert!(hits[1].is_empty());
}
