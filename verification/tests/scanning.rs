use ctx_audit_core::hits::hit_list;
use ctx_audit_core::regex_scanner::{split_lines, AnyScanner, FileScanner, RegexScanner};
use ctx_audit_core::rule_scanner::{
    compile_rule, create_finding, eq_ignore_ascii_case, findings_for_matches, findings_for_spans,
    get_language_for_rule, line_of_offset, rule_matches_extension, RuleMatcher,
    RuleScanner,
};
use ctx_audit_core::rules::{Rule, Severity};
use ctx_audit_core::scanner::{Finding, Scanner, ScannerManager};
use ctx_audit_core::security::{CustomRule, SecurityScanner};
use ctx_audit_core::strmap::StrMap;
use ctx_audit_core::treesitter::QueryHit;

fn rule(id: &str, language: &str, pattern: Option<&str>, query: Option<&str>) -> Rule {
    Rule {
        id: id.to_string(),
        name: "n".to_string(),
        description: "Hard-coded password".to_string(),
        severity: Severity::High,
        language: language.to_string(),
        pattern: pattern.map(|p| p.to_string()),
        query: query.map(|q| q.to_string()),
        category: None,
        cwe: Some("CWE-798".to_string()),
    }
}

#[test]
fn password_rule_gives_one_finding_on_its_line() {
    let r = rule("pw", "python", Some(r#"password\s*=\s*['"][^'"]+['"]"#), None);
    let scanner = RuleScanner::new(vec![r]);
    assert_eq!(scanner.rule_count(), 1);
    let content = "import os\n\npassword = \"abc123\"\nprint(1)\n";
    let findings = scanner.scan_file("src/app.py", content);
    assert_eq!(findings.len(), 1);
    let f = &findings[0];
    assert_eq!(f.severity, "high");
    assert_eq!(f.line_start, 3);
    assert_eq!(f.line_end, 3);
    assert_eq!(f.file_path, "src/app.py");
    assert_eq!(f.detector, "RegexRule:pw");
    assert_eq!(f.vuln_type, "CWE-798");
    assert_eq!(f.description, "Hard-coded password");
    assert!(f.analysis_trail.is_none());
    assert!(f.llm_output.is_none());
    assert_eq!(f.finding_id.len(), 36);
}

#[test]
fn every_match_gives_a_finding_with_its_own_id() {
    let r = rule("todo", "*", Some("TODO"), None);
    let scanner = RuleScanner::new(vec![r]);
    let findings = scanner.scan_file("x.whatever", "TODO a TODO\nb\nTODO");
    let lines: Vec<usize> = findings.iter().map(|f| f.line_start).collect();
    assert_eq!(lines, vec![1, 1, 3]);
    assert_ne!(findings[0].finding_id, findings[1].finding_id);
}

#[test]
fn match_over_several_lines_has_both_ends() {
    let r = rule("multi", "all", Some("a\\nb\\nc"), None);
    let scanner = RuleScanner::new(vec![r]);
    let findings = scanner.scan_file("f", "x\na\nb\nc\n");
    assert_eq!(findings.len(), 1);
    assert_eq!((findings[0].line_start, findings[0].line_end), (2, 4));
}

#[test]
fn rules_run_only_on_files_of_their_language() {
    let r = rule("pw", "python", Some("secret"), None);
    let scanner = RuleScanner::new(vec![r]);
    assert_eq!(scanner.scan_file("a.py", "secret").len(), 1);
    assert_eq!(scanner.scan_file("a.PY", "secret").len(), 1);
    assert_eq!(scanner.scan_file("a.js", "secret").len(), 0);
    assert_eq!(scanner.scan_file("a", "secret").len(), 0);
}

#[test]
fn rules_that_do_not_compile_are_dropped() {
    let rules = vec![
        rule("bad-regex", "python", Some("("), None),
        rule("good", "python", Some("x"), None),
        rule("neither", "python", None, None),
        rule("bad-query", "python", None, Some("(nonsense_node) @x")),
        rule("no-grammar", "cobol", Some("x"), Some("(identifier) @x")),
        rule("query-first", "python", Some("("), Some("(identifier) @id")),
    ];
    let scanner = RuleScanner::new(rules);
    assert_eq!(scanner.rule_count(), 2);
    let findings = scanner.scan_file("a.py", "x = 1\n");
    let detectors: Vec<String> = findings.iter().map(|f| f.detector.clone()).collect();
    assert_eq!(detectors, vec!["RegexRule:good".to_string(), "ASTRule:query-first".to_string()]);
}

#[test]
fn structural_rule_reports_the_first_capture() {
    let r = rule(
        "calls",
        "Python",
        None,
        Some("(call function: (identifier) @name arguments: (argument_list) @args)"),
    );
    let scanner = RuleScanner::new(vec![r]);
    let findings = scanner.scan_file("a.py", "x = 1\neval(\n  y\n)\nprint(2)\n");
    let spans: Vec<(usize, usize)> = findings.iter().map(|f| (f.line_start, f.line_end)).collect();
    assert_eq!(spans, vec![(2, 2), (5, 5)]);
    assert_eq!(findings[0].detector, "ASTRule:calls");
    assert_eq!(findings[0].severity, "high");
}

#[test]
fn findings_for_given_spans_and_matches() {
    let mut r = rule("r1", "all", Some("x"), None);
    r.cwe = None;
    r.severity = Severity::Critical;
    let content = "ab\ncd\n\u{00e9}f\n";
    let spans = vec![(0, 1), (3, 7), (100, 200)];
    let found = findings_for_spans(&r, "p", content, &spans);
    let lines: Vec<(usize, usize)> = found.iter().map(|f| (f.line_start, f.line_end)).collect();
    assert_eq!(lines, vec![(1, 1), (2, 3), (4, 4)]);
    assert_eq!(found[0].vuln_type, "Unknown");
    assert_eq!(found[0].severity, "critical");
    let hit = |row: usize, end: usize| QueryHit { index: 0, start_row: row, end_row: end, text: None };
    let matches = vec![vec![hit(4, 6), hit(0, 0)], vec![], vec![hit(0, 0)]];
    let found = findings_for_matches(&r, "p", &matches);
    let lines: Vec<(usize, usize)> = found.iter().map(|f| (f.line_start, f.line_end)).collect();
    assert_eq!(lines, vec![(5, 7), (1, 1)]);
    assert_eq!(found[0].detector, "ASTRule:r1");
    let f = create_finding(&r, "p", 1, 2, "d".to_string(), "id-1".to_string());
    assert_eq!(f.finding_id, "id-1");
    assert_eq!(f.detector, "d");
}

#[test]
fn lines_are_counted_by_line_feeds() {
    let s = "a\nbb\n\nc";
    assert_eq!(line_of_offset(s, 0), 1);
    assert_eq!(line_of_offset(s, 1), 1);
    assert_eq!(line_of_offset(s, 2), 2);
    assert_eq!(line_of_offset(s, 5), 3);
    assert_eq!(line_of_offset(s, 6), 4);
    assert_eq!(line_of_offset(s, 7), 4);
    assert_eq!(line_of_offset(s, 1000), 4);
    assert_eq!(line_of_offset("", 0), 1);
}

#[test]
fn language_decides_the_extensions() {
    assert!(rule_matches_extension("python", "py"));
    assert!(rule_matches_extension("PYTHON", "py"));
    assert!(!rule_matches_extension("python", "pyw"));
    for ext in ["js", "jsx", "ts", "tsx", "mjs", "cjs"] {
        assert!(rule_matches_extension("javascript", ext));
        assert!(rule_matches_extension("TypeScript", ext));
    }
    assert!(rule_matches_extension("c", "h"));
    assert!(!rule_matches_extension("c", "cpp"));
    assert!(rule_matches_extension("cpp", "cxx"));
    assert!(rule_matches_extension("rust", "rs"));
    assert!(rule_matches_extension("go", "go"));
    assert!(rule_matches_extension("java", "java"));
    assert!(rule_matches_extension("all", "anything"));
    assert!(rule_matches_extension("*", ""));
    assert!(rule_matches_extension("Kotlin", "kotlin"));
    assert!(rule_matches_extension("yaml", "YAML"));
    assert!(!rule_matches_extension("yaml", "yml"));
    assert!(eq_ignore_ascii_case("AbC", "aBc"));
    assert!(!eq_ignore_ascii_case("abc", "abcd"));
    assert!(!eq_ignore_ascii_case("\u{00c4}", "\u{00e4}"));
    assert!(get_language_for_rule("Python").is_some());
    assert!(get_language_for_rule("html").is_some());
    assert!(get_language_for_rule("css").is_none());
    assert!(get_language_for_rule("all").is_none());
}

#[test]
fn severities_are_ordered_and_named() {
    let order = [Severity::Critical, Severity::High, Severity::Medium, Severity::Low, Severity::Info];
    for i in 0..order.len() {
        for j in 0..order.len() {
            assert_eq!(order[i].is_graver_than(&order[j]), i < j);
        }
    }
    assert_eq!(Severity::Critical.label(), "critical");
    assert_eq!(Severity::Medium.label(), "medium");
    assert_eq!(Severity::Low.label(), "low");
    assert_eq!(Severity::Info.label(), "info");
    assert_eq!(Severity::Info.rank(), 0);
}

#[test]
fn lines_of_a_text() {
    assert_eq!(split_lines("a\nb\r\nc"), vec!["a", "b", "c"]);
    assert_eq!(split_lines("a\n"), vec!["a"]);
    assert_eq!(split_lines("a\n\n"), vec!["a", ""]);
    assert_eq!(split_lines(""), Vec::<String>::new());
    assert_eq!(split_lines("a\r"), vec!["a\r"]);
    assert_eq!(split_lines("\r\n"), vec![""]);
    let text = "x\r\ny\rz\n\nlast";
    let expected: Vec<String> = text.lines().map(|l| l.to_string()).collect();
    assert_eq!(split_lines(text), expected);
}

#[test]
fn builtin_scanner_finds_its_three_patterns() {
    let scanner = RegexScanner::new();
    assert_eq!(scanner.name(), "RegexScanner");
    let content = "ok\nPassword = 'x' # TODO: rotate\napi_key=\"k\"\n";
    let findings = scanner.scan_file("conf.py", content);
    let got: Vec<(usize, String, String)> =
        findings.iter().map(|f| (f.line_start, f.vuln_type.clone(), f.severity.clone())).collect();
    assert_eq!(
        got,
        vec![
            (2, "Hardcoded Password".to_string(), "high".to_string()),
            (2, "TODO Comment".to_string(), "low".to_string()),
            (3, "Hardcoded API Key".to_string(), "high".to_string()),
        ]
    );
    assert_eq!(findings[0].description, "Found potential Hardcoded Password at line 2");
    assert_eq!(findings[0].detector, "RegexScanner");
    assert_eq!(findings[0].line_end, 2);
    assert_eq!(findings[0].file_path, "conf.py");
}

struct Fixed(usize);

impl Scanner for Fixed {
    fn name(&self) -> String {
        "fixed".to_string()
    }

    fn scan_file(&self, path: &str, _content: &str) -> Vec<Finding> {
        (0..self.0)
            .map(|i| Finding {
                finding_id: format!("{}-{}", self.0, i),
                file_path: path.to_string(),
                line_start: i,
                line_end: i,
                detector: "fixed".to_string(),
                vuln_type: String::new(),
                severity: String::new(),
                description: String::new(),
                analysis_trail: None,
                llm_output: None,
            })
            .collect()
    }
}

#[test]
fn manager_runs_scanners_in_order() {
    let mut manager: ScannerManager<Fixed> = ScannerManager::new();
    assert_eq!(manager.len(), 0);
    assert_eq!(manager.scan_file("p", "c").len(), 0);
    manager.register_scanner(Fixed(2));
    manager.register_scanner(Fixed(0));
    manager.register_scanner(Fixed(1));
    assert_eq!(manager.len(), 3);
    let ids: Vec<String> = manager.scan_file("p", "c").iter().map(|f| f.finding_id.clone()).collect();
    assert_eq!(ids, vec!["2-0".to_string(), "2-1".to_string(), "1-0".to_string()]);
}

#[test]
fn full_scan_puts_rule_findings_first() {
    let scanner = FileScanner::new(vec![rule("pw", "python", Some("password"), None)]);
    assert!(scanner.rule_scanner.is_some());
    let findings = scanner.scan_file("a.py", "password = 'x'\n");
    let detectors: Vec<String> = findings.iter().map(|f| f.detector.clone()).collect();
    assert_eq!(detectors, vec!["RegexRule:pw".to_string(), "RegexScanner".to_string()]);
    assert_eq!(scanner.scan_file("a.txt", "password = 'x'\n").len(), 0);
    let plain = FileScanner::new(Vec::new());
    assert!(plain.rule_scanner.is_none());
    assert_eq!(plain.scan_file("a.py", "password = 'x'\n").len(), 1);
}

#[test]
fn custom_rules_are_kept_by_extension() {
    let mut rules: StrMap<Vec<CustomRule>> = StrMap::new();
    rules.insert(
        ".py".to_string(),
        vec![
            CustomRule { pattern: "eval\\(".to_string(), message: "eval".to_string(), severity: "high".to_string() },
            CustomRule { pattern: "(".to_string(), message: "broken".to_string(), severity: "low".to_string() },
        ],
    );
    let found = SecurityScanner::scan_file("a.py", "x\n  eval(y)\n", &rules);
    assert_eq!(found.len(), 1);
    assert_eq!(found[0].file, "a.py");
    assert_eq!(found[0].line, 2);
    assert_eq!(found[0].severity, "high");
    assert_eq!(found[0].message, "eval");
    assert_eq!(found[0].code, "  eval(y)");
    assert_eq!(SecurityScanner::scan_file("a.js", "eval(y)", &rules).len(), 0);
    assert_eq!(SecurityScanner::scan_file("py", "eval(y)", &rules).len(), 0);
}

#[test]
fn directory_scan_passes_over_excluded_paths() {
    let none: Vec<String> = Vec::new();
    assert!(SecurityScanner::should_scan("src/a.py", &none, &none));
    assert!(!SecurityScanner::should_scan("node_modules/a.js", &none, &none));
    assert!(!SecurityScanner::should_scan("x/.git/config", &none, &none));
    assert!(!SecurityScanner::should_scan("rebuild/a.py", &none, &none));
    assert!(!SecurityScanner::should_scan("src/gen/a.py", &none, &vec!["gen".to_string()]));
    assert!(SecurityScanner::should_scan("src/a.py", &vec!["src".to_string()], &none));
    assert!(!SecurityScanner::should_scan("lib/a.py", &vec!["src".to_string()], &none));
    assert!(SecurityScanner::should_scan(
        "lib/a.py",
        &vec!["src".to_string(), "lib".to_string()],
        &none
    ));
    assert!(!SecurityScanner::should_scan(
        "src/gen/a.py",
        &vec!["src".to_string()],
        &vec!["gen".to_string()]
    ));
    assert!(SecurityScanner::should_scan("src/a.py", &vec!["".to_string()], &none));
}

#[test]
fn hits_come_row_after_row() {
    let table = vec![
        vec![false, true, true],
        vec![false, false, false],
        vec![true, false, true],
    ];
    assert_eq!(hit_list(&table), vec![(0, 1), (0, 2), (2, 0), (2, 2)]);
    assert_eq!(hit_list(&Vec::new()), Vec::<(usize, usize)>::new());
    assert_eq!(hit_list(&vec![Vec::new(), Vec::new()]), Vec::<(usize, usize)>::new());
}

#[test]
fn builtin_report_has_one_finding_for_each_place() {
    let scanner = RegexScanner::new();
    let findings = scanner.report("a.py", &vec![(0, 2), (4, 0), (4, 1)]);
    assert_eq!(findings.len(), 3);
    assert_eq!(findings[0].line_start, 1);
    assert_eq!(findings[0].line_end, 1);
    assert_eq!(findings[0].vuln_type, "TODO Comment");
    assert_eq!(findings[0].severity, "low");
    assert_eq!(findings[0].description, "Found potential TODO Comment at line 1");
    assert_eq!(findings[0].detector, "RegexScanner");
    assert_eq!(findings[0].file_path, "a.py");
    assert_eq!(findings[1].line_start, 5);
    assert_eq!(findings[1].vuln_type, "Hardcoded Password");
    assert_eq!(findings[1].severity, "high");
    assert_eq!(findings[2].line_start, 5);
    assert_eq!(findings[2].vuln_type, "Hardcoded API Key");
    assert_eq!(findings[2].description, "Found potential Hardcoded API Key at line 5");
    assert!(scanner.report("a.py", &Vec::new()).is_empty());
}

#[test]
fn builtin_scanner_goes_line_after_line() {
    let scanner = RegexScanner::new();
    let content = "x = 1\n# TODO: api_key = 'k' and password = 'p'\r\n\n// todo: later\n";
    let findings = scanner.scan_file("a.py", content);
    let got: Vec<(usize, &str)> =
        findings.iter().map(|f| (f.line_start, f.vuln_type.as_str())).collect();
    assert_eq!(
        got,
        vec![
            (2, "Hardcoded Password"),
            (2, "Hardcoded API Key"),
            (2, "TODO Comment"),
            (4, "TODO Comment"),
        ]
    );
    assert!(scanner.scan_file("a.py", "").is_empty());
}

#[test]
fn custom_report_has_one_finding_for_each_place() {
    let lines = vec!["first".to_string(), "second".to_string(), "third".to_string()];
    let rules = vec![
        CustomRule { pattern: "a".to_string(), message: "ma".to_string(), severity: "low".to_string() },
        CustomRule { pattern: "b".to_string(), message: "mb".to_string(), severity: "high".to_string() },
    ];
    let found = SecurityScanner::report("f.txt", &lines, &rules, &vec![(0, 1), (2, 0), (2, 1)]);
    assert_eq!(found.len(), 3);
    assert_eq!(found[0].file, "f.txt");
    assert_eq!(found[0].line, 1);
    assert_eq!(found[0].severity, "high");
    assert_eq!(found[0].message, "mb");
    assert_eq!(found[0].code, "first");
    assert_eq!(found[1].line, 3);
    assert_eq!(found[1].message, "ma");
    assert_eq!(found[1].severity, "low");
    assert_eq!(found[1].code, "third");
    assert_eq!(found[2].line, 3);
    assert_eq!(found[2].message, "mb");
    assert!(SecurityScanner::report("f.txt", &lines, &rules, &Vec::new()).is_empty());
}

#[test]
fn custom_rules_go_line_after_line_and_skip_bad_patterns() {
    let rules = vec![
        CustomRule { pattern: "(".to_string(), message: "bad".to_string(), severity: "high".to_string() },
        CustomRule { pattern: "eval\\(".to_string(), message: "eval".to_string(), severity: "high".to_string() },
        CustomRule { pattern: "x".to_string(), message: "x".to_string(), severity: "low".to_string() },
    ];
    let found = SecurityScanner::scan_content("a.js", "eval(x)\nnothing\nx\n", &rules);
    let got: Vec<(usize, &str, &str)> =
        found.iter().map(|f| (f.line, f.message.as_str(), f.code.as_str())).collect();
    assert_eq!(got, vec![(1, "eval", "eval(x)"), (1, "x", "eval(x)"), (3, "x", "x")]);
    assert!(SecurityScanner::scan_content("a.js", "", &rules).is_empty());
    assert!(SecurityScanner::scan_content("a.js", "eval(x)\n", &Vec::new()).is_empty());
}

#[test]
fn textual_rules_compile_exactly_where_the_pattern_is_valid() {
    let good = rule("g", "python", Some("a+b"), None);
    let bad = rule("b", "python", Some("a+("), None);
    let none = rule("n", "python", None, None);
    let compiled = compile_rule(&good).expect("a valid pattern compiles");
    assert_eq!(compiled.rule.id, "g");
    assert!(matches!(compiled.matcher, RuleMatcher::Regex(_)));
    assert!(compiled.language.is_none());
    assert!(compile_rule(&bad).is_none());
    assert!(compile_rule(&none).is_none());
    let no_grammar = rule("q", "cobol", Some("a"), Some("(identifier) @x"));
    assert!(compile_rule(&no_grammar).is_none());
    let kept = RuleScanner::new(vec![bad, good, none, no_grammar]);
    assert_eq!(kept.rule_count(), 1);
}

#[test]
fn structural_rules_compile_where_grammar_and_query_are_good() {
    let good = rule("s", "Python", None, Some("(identifier) @x"));
    let compiled = compile_rule(&good).expect("a valid query compiles");
    assert_eq!(compiled.rule.id, "s");
    assert!(matches!(compiled.matcher, RuleMatcher::TreeSitter(_)));
    assert!(compiled.language.is_some());
    assert!(compile_rule(&rule("b", "python", Some("x"), Some("(nonsense_node) @x"))).is_none());
    assert!(compile_rule(&rule("c", "cobol", Some("x"), Some("(identifier) @x"))).is_none());
    let scanner = RuleScanner::new(vec![good]);
    let findings = scanner.scan_file("a.py", "x = 1\ny = (\n  2)\n");
    let lines: Vec<(usize, usize)> = findings.iter().map(|f| (f.line_start, f.line_end)).collect();
    assert_eq!(lines, vec![(1, 1), (2, 2)]);
    assert!(scanner.scan_file("a.rs", "x = 1\n").is_empty());
}

#[test]
fn one_manager_holds_scanners_of_both_kinds() {
    let mut manager: ScannerManager<AnyScanner> = ScannerManager::new();
    let rules = RuleScanner::new(vec![rule("pw", "python", Some("secret"), None)]);
    manager.register_scanner(AnyScanner::Rules(rules));
    manager.register_scanner(AnyScanner::Builtin(RegexScanner::new()));
    assert_eq!(manager.len(), 2);
    let findings = manager.scan_file("a.py", "x = 1\nsecret = 2 # TODO: hide\n");
    let got: Vec<(&str, usize)> =
        findings.iter().map(|f| (f.detector.as_str(), f.line_start)).collect();
    assert_eq!(got, vec![("RegexRule:pw", 2), ("RegexScanner", 2)]);
    assert_eq!(AnyScanner::Builtin(RegexScanner::new()).name(), "RegexScanner");
    assert_eq!(AnyScanner::Rules(RuleScanner::new(Vec::new())).name(), "RuleBasedScanner");
}
