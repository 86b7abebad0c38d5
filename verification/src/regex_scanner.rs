//! The built-in textual scanner: three fixed patterns, tried line by line.

use crate::hits::{hit_list, hits_of, in_table, rows_of};
use crate::parser::{is_known_extension, is_supported_file};
use crate::pattern::{compile_pattern, pattern_is_match, regex_match, regex_valid, Pattern};
use crate::rule_scanner::RuleScanner;
use crate::rules::{rule_views, Rule};
use crate::scanner::{
    finding_views, lemma_finding_views_push, new_finding_id, Finding, FindingView, Scanner,
};
use crate::text::{
    append_chars, append_decimal, decimal, extension_of, from_chars, rows, split_chars, split_on,
    texts, to_chars,
};
use vstd::prelude::*;

verus! {

/// A line without the carriage return at its end, if it has one.
pub open spec fn strip_cr(line: Seq<char>) -> Seq<char> {
    if line.len() > 0 && line.last() == '\r' {
        line.drop_last()
    } else {
        line
    }
}

/// The lines of a text: its pieces between line feeds, each but the last
/// without a carriage return at its end; the last piece is left out where
/// it is empty and kept as it is where it is not.
pub open spec fn lines_of(s: Seq<char>) -> Seq<Seq<char>> {
    let parts = split_on(s, '\n');
    let body = parts.drop_last().map_values(|p: Seq<char>| strip_cr(p));
    if parts.last().len() == 0 {
        body
    } else {
        body.push(parts.last())
    }
}

/// The lines of a text.
pub fn split_lines(content: &str) -> (lines: Vec<String>)
    ensures
        texts(lines@) == lines_of(content@),
{
    let parts = split_chars(&to_chars(content), '\n');
    proof {
        crate::text::lemma_split_on_nonempty(content@, '\n');
        assert(rows(parts@).len() == parts@.len());
    }
    let ghost all = split_on(content@, '\n');
    let ghost body = all.drop_last().map_values(|p: Seq<char>| strip_cr(p));
    let mut lines: Vec<String> = Vec::new();
    let last = parts.len() - 1;
    let mut i: usize = 0;
    proof {
        assert(texts(lines@) =~= body.take(0));
    }
    while i < last
        invariant
            i <= last,
            last == parts@.len() - 1,
            rows(parts@) == all,
            body == all.drop_last().map_values(|p: Seq<char>| strip_cr(p)),
            texts(lines@) == body.take(i as int),
        decreases last - i,
    {
        let p = &parts[i];
        let ghost before = texts(lines@);
        proof {
            assert(rows(parts@)[i as int] == p@);
            assert(all.drop_last()[i as int] == p@);
        }
        let n = p.len();
        let line = if n > 0 && p[n - 1] == '\r' {
            let mut cut: Vec<char> = Vec::new();
            let mut k: usize = 0;
            while k < n - 1
                invariant
                    k <= n - 1,
                    n == p@.len(),
                    cut@ == p@.take(k as int),
                decreases n - 1 - k,
            {
                cut.push(p[k]);
                proof {
                    assert(p@.take(k as int).push(p@[k as int]) =~= p@.take(k + 1));
                }
                k += 1;
            }
            proof {
                assert(p@.take(n - 1) =~= p@.drop_last());
            }
            from_chars(&cut)
        } else {
            from_chars(p)
        };
        lines.push(line);
        proof {
            assert(texts(lines@) =~= before.push(strip_cr(p@)));
            assert(body.take(i as int).push(body[i as int]) =~= body.take(i + 1));
        }
        i += 1;
    }
    proof {
        assert(body.take(last as int) =~= body);
        assert(rows(parts@)[last as int] == parts@[last as int]@);
        assert(all.last() == parts@[last as int]@);
    }
    if parts[last].len() > 0 {
        let ghost before = texts(lines@);
        let line = from_chars(&parts[last]);
        lines.push(line);
        proof {
            assert(texts(lines@) =~= before.push(all.last()));
        }
    }
    lines
}

/// What the built-in scanner looks for: the pattern, what a match is
/// called, and how grave it is.
pub struct BuiltinPattern {
    pub pattern: Seq<char>,
    pub vuln_type: Seq<char>,
    pub severity: Seq<char>,
}

/// The three built-in patterns: hard-coded passwords, hard-coded API keys,
/// and notes of things left to do.
pub open spec fn builtin_patterns() -> Seq<BuiltinPattern> {
    seq![
        BuiltinPattern {
            pattern: "(?i)password\\s*=\\s*['\"][^'\"]+['\"]"@,
            vuln_type: "Hardcoded Password"@,
            severity: "high"@,
        },
        BuiltinPattern {
            pattern: "(?i)api_key\\s*=\\s*['\"][^'\"]+['\"]"@,
            vuln_type: "Hardcoded API Key"@,
            severity: "high"@,
        },
        BuiltinPattern { pattern: "(?i)TODO:"@, vuln_type: "TODO Comment"@, severity: "low"@ },
    ]
}

/// Whether a kind of match with its severity is one of the built-in ones.
pub open spec fn is_builtin(vuln_type: Seq<char>, severity: Seq<char>) -> bool {
    exists|i: int|
        0 <= i < builtin_patterns().len() && (#[trigger] builtin_patterns()[i]).vuln_type
            == vuln_type && builtin_patterns()[i].severity == severity
}

/// What the built-in scanner says of a match of the given kind in the line
/// with the one-based number `line`.
pub open spec fn builtin_finding(
    path: Seq<char>,
    line: usize,
    vuln_type: Seq<char>,
    severity: Seq<char>,
) -> FindingView {
    FindingView {
        file_path: path,
        line_start: line,
        line_end: line,
        detector: "RegexScanner"@,
        vuln_type,
        severity,
        description: "Found potential "@ + vuln_type + " at line "@ + decimal(line as nat),
        analysis_trail: None,
        llm_output: None,
    }
}

/// A compiled built-in pattern with what a match is called and how grave
/// it is.
pub struct LinePattern {
    pub regex: Pattern,
    pub vuln_type: String,
    pub severity: String,
}

/// The built-in textual scanner.
pub struct RegexScanner {
    patterns: Vec<LinePattern>,
}

/// The compiled patterns as plain values: the text of each with what it
/// calls a match and how grave that is.
pub open spec fn pattern_views(patterns: Seq<LinePattern>) -> Seq<BuiltinPattern> {
    patterns.map_values(
        |p: LinePattern|
            BuiltinPattern { pattern: p.regex@, vuln_type: p.vuln_type@, severity: p.severity@ },
    )
}

/// Those of the first `n` built-in patterns that are valid regular
/// expressions, in order.
pub open spec fn valid_builtins(n: nat) -> Seq<BuiltinPattern>
    decreases n,
{
    if n == 0 {
        Seq::empty()
    } else {
        let b = builtin_patterns()[n - 1];
        if regex_valid(b.pattern) {
            valid_builtins((n - 1) as nat).push(b)
        } else {
            valid_builtins((n - 1) as nat)
        }
    }
}

/// For each of `lines` the answer of each pattern to it.
pub open spec fn line_answers(lines: Seq<Seq<char>>, patterns: Seq<LinePattern>) -> Seq<Seq<bool>> {
    Seq::new(
        lines.len(),
        |i: int| Seq::new(patterns.len(), |j: int| regex_match(patterns[j].regex@, lines[i])),
    )
}

/// What the built-in scanner says of hits at the given places, each the
/// zero-based index of a line and the index of a pattern: one finding for
/// each place, in order.
pub open spec fn builtin_report(
    path: Seq<char>,
    patterns: Seq<LinePattern>,
    places: Seq<(usize, usize)>,
) -> Seq<FindingView> {
    Seq::new(
        places.len(),
        |k: int|
            builtin_finding(
                path,
                (places[k].0 + 1) as usize,
                patterns[places[k].1 as int].vuln_type@,
                patterns[places[k].1 as int].severity@,
            ),
    )
}

impl RegexScanner {
    /// The compiled patterns, in order.
    pub closed spec fn patterns(&self) -> Seq<LinePattern> {
        self.patterns@
    }

    /// Validity: every pattern is one of the built-in ones.
    pub open spec fn wf(&self) -> bool {
        forall|i: int|
            0 <= i < self.patterns().len() ==> is_builtin(
                (#[trigger] self.patterns()[i]).vuln_type@,
                self.patterns()[i].severity@,
            )
    }

    /// Compiles `pattern` and, where it is a valid regular expression,
    /// appends it with its kind; else the scanner stays as it is.
    fn add(&mut self, pattern: &str, vuln_type: &str, severity: &str)
        requires
            old(self).wf(),
            is_builtin(vuln_type@, severity@),
        ensures
            final(self).wf(),
            regex_valid(pattern@) ==> pattern_views(final(self).patterns()) == pattern_views(
                old(self).patterns(),
            ).push(
                BuiltinPattern { pattern: pattern@, vuln_type: vuln_type@, severity: severity@ },
            ),
            !regex_valid(pattern@) ==> final(self).patterns() == old(self).patterns(),
    {
        match compile_pattern(pattern) {
            Some(regex) => {
                self.patterns.push(
                    LinePattern {
                        regex,
                        vuln_type: vuln_type.to_string(),
                        severity: severity.to_string(),
                    },
                );
                proof {
                    assert(pattern_views(self.patterns()) =~= pattern_views(old(self).patterns()).push(
                        BuiltinPattern {
                            pattern: pattern@,
                            vuln_type: vuln_type@,
                            severity: severity@,
                        },
                    ));
                }
            },
            None => {},
        }
    }

    /// The scanner with the built-in patterns: those of the three that are
    /// valid regular expressions, in order.
    pub fn new() -> (s: Self)
        ensures
            s.wf(),
            pattern_views(s.patterns()) == valid_builtins(3),
    {
        let mut s = RegexScanner { patterns: Vec::new() };
        proof {
            assert(builtin_patterns()[0].severity == "high"@);
            assert(builtin_patterns()[1].severity == "high"@);
            assert(builtin_patterns()[2].severity == "low"@);
            assert(is_builtin("Hardcoded Password"@, "high"@));
            assert(is_builtin("Hardcoded API Key"@, "high"@));
            assert(is_builtin("TODO Comment"@, "low"@));
            assert(pattern_views(s.patterns()) =~= valid_builtins(0));
        }
        s.add("(?i)password\\s*=\\s*['\"][^'\"]+['\"]", "Hardcoded Password", "high");
        proof {
            assert(pattern_views(s.patterns()) == valid_builtins(1));
        }
        s.add("(?i)api_key\\s*=\\s*['\"][^'\"]+['\"]", "Hardcoded API Key", "high");
        proof {
            assert(pattern_views(s.patterns()) == valid_builtins(2));
        }
        s.add("(?i)TODO:", "TODO Comment", "low");
        s
    }

    /// For each line the answer of each pattern to it.
    fn match_table(&self, lines: &Vec<String>) -> (table: Vec<Vec<bool>>)
        ensures
            rows_of(table@) == line_answers(texts(lines@), self.patterns()),
    {
        let mut table: Vec<Vec<bool>> = Vec::new();
        let mut i: usize = 0;
        while i < lines.len()
            invariant
                i <= lines.len(),
                table@.len() == i,
                forall|a: int|
                    0 <= a < i ==> (#[trigger] table@[a])@.len() == self.patterns().len(),
                forall|a: int, b: int|
                    0 <= a < i && 0 <= b < self.patterns().len() ==> #[trigger] table@[a]@[b]
                        == regex_match(self.patterns()[b].regex@, lines@[a]@),
            decreases lines.len() - i,
        {
            let mut row: Vec<bool> = Vec::new();
            let mut j: usize = 0;
            while j < self.patterns.len()
                invariant
                    i < lines.len(),
                    j <= self.patterns.len(),
                    row@.len() == j,
                    forall|b: int|
                        0 <= b < j ==> #[trigger] row@[b] == regex_match(
                            self.patterns()[b].regex@,
                            lines@[i as int]@,
                        ),
                decreases self.patterns.len() - j,
            {
                row.push(pattern_is_match(&self.patterns[j].regex, lines[i].as_str()));
                j += 1;
            }
            table.push(row);
            i += 1;
        }
        proof {
            assert(texts(lines@).len() == lines@.len());
            assert(rows_of(table@) =~~= line_answers(texts(lines@), self.patterns()));
        }
        table
    }

    /// The findings for hits at the given places, each the zero-based index
    /// of a line and the index of a pattern: one finding for each place, in
    /// order, each with a fresh id.
    pub fn report(&self, path: &str, places: &Vec<(usize, usize)>) -> (findings: Vec<Finding>)
        requires
            forall|k: int|
                0 <= k < places@.len() ==> (#[trigger] places@[k]).0 < usize::MAX && places@[k].1
                    < self.patterns().len(),
        ensures
            finding_views(findings@) == builtin_report(path@, self.patterns(), places@),
    {
        let mut findings: Vec<Finding> = Vec::new();
        let mut k: usize = 0;
        proof {
            assert(finding_views(findings@) =~= builtin_report(
                path@,
                self.patterns(),
                places@.take(0),
            ));
        }
        while k < places.len()
            invariant
                k <= places.len(),
                forall|k: int|
                    0 <= k < places@.len() ==> (#[trigger] places@[k]).0 < usize::MAX
                        && places@[k].1 < self.patterns().len(),
                finding_views(findings@) == builtin_report(
                    path@,
                    self.patterns(),
                    places@.take(k as int),
                ),
            decreases places.len() - k,
        {
            let line = places[k].0 + 1;
            let p = &self.patterns[places[k].1];
            let mut text: Vec<char> = Vec::new();
            append_chars(&mut text, "Found potential ");
            append_chars(&mut text, p.vuln_type.as_str());
            append_chars(&mut text, " at line ");
            append_decimal(&mut text, line as u64);
            proof {
                assert(text@ =~= "Found potential "@ + p.vuln_type@ + " at line "@ + decimal(
                    line as nat,
                ));
            }
            let f = Finding {
                finding_id: new_finding_id(),
                file_path: path.to_string(),
                line_start: line,
                line_end: line,
                detector: "RegexScanner".to_string(),
                vuln_type: p.vuln_type.clone(),
                severity: p.severity.clone(),
                description: from_chars(&text),
                analysis_trail: None,
                llm_output: None,
            };
            proof {
                lemma_finding_views_push(findings@, f);
                assert(f@ == builtin_finding(path@, line, p.vuln_type@, p.severity@));
                assert(builtin_report(path@, self.patterns(), places@.take(k as int)).push(f@)
                    =~= builtin_report(path@, self.patterns(), places@.take(k + 1)));
            }
            findings.push(f);
            k += 1;
        }
        proof {
            assert(places@.take(places.len() as int) =~= places@);
        }
        findings
    }
}

/// Whether a finding is what the built-in scanner says of some line of the
/// text and some built-in pattern.
pub open spec fn is_builtin_finding(f: FindingView, path: Seq<char>, content: Seq<char>) -> bool {
    exists|line: usize, vuln_type: Seq<char>, severity: Seq<char>|
        1 <= line <= lines_of(content).len() && is_builtin(vuln_type, severity) && f
            == #[trigger] builtin_finding(path, line, vuln_type, severity)
}

impl Scanner for RegexScanner {
    /// The findings are those for every line of the text and every pattern
    /// that matches in it, line after line and within a line pattern after
    /// pattern; so each reports a built-in pattern in one line of the text.
    open spec fn produces(&self, path: Seq<char>, content: Seq<char>, findings: Seq<Finding>) -> bool {
        &&& self.wf() ==> forall|i: int|
            0 <= i < findings.len() ==> is_builtin_finding((#[trigger] findings[i])@, path, content)
        &&& finding_views(findings) == builtin_report(
            path,
            self.patterns(),
            hits_of(line_answers(lines_of(content), self.patterns())),
        )
    }

    fn name(&self) -> (r: String)
        ensures
            r@ == "RegexScanner"@,
    {
        "RegexScanner".to_string()
    }

    /// The findings of the built-in patterns, line after line and within a
    /// line pattern after pattern.
    fn scan_file(&self, path: &str, content: &str) -> (findings: Vec<Finding>) {
        let lines = split_lines(content);
        let table = self.match_table(&lines);
        let places = hit_list(&table);
        let rows = table.len();
        proof {
            assert(texts(lines@).len() == lines@.len());
            assert forall|k: int| 0 <= k < places@.len() implies (#[trigger] places@[k]).0
                < usize::MAX && places@[k].1 < self.patterns().len() by {
                assert(in_table(rows_of(table@), places@[k]));
                assert(places@[k].0 < rows);
            }
        }
        let findings = self.report(path, &places);
        proof {
            assert(finding_views(findings@).len() == findings@.len());
            if self.wf() {
                assert forall|i: int| 0 <= i < findings@.len() implies is_builtin_finding(
                    (#[trigger] findings@[i])@,
                    path@,
                    content@,
                ) by {
                    let place = places@[i];
                    let p = self.patterns()[place.1 as int];
                    assert(in_table(rows_of(table@), place));
                    assert(place.0 < usize::MAX && place.1 < self.patterns().len());
                    assert(finding_views(findings@)[i] == findings@[i]@);
                    assert(is_builtin(p.vuln_type@, p.severity@));
                    assert(findings@[i]@ == builtin_finding(
                        path@,
                        (place.0 + 1) as usize,
                        p.vuln_type@,
                        p.severity@,
                    ));
                }
            }
        }
        findings
    }
}

/// One of the library's scanners, so that one manager can hold scanners
/// of both kinds.
pub enum AnyScanner {
    /// The built-in textual scanner.
    Builtin(RegexScanner),
    /// A rule scanner.
    Rules(RuleScanner),
}

impl AnyScanner {
    /// The name of the scanner that is held.
    pub open spec fn held_name(&self) -> Seq<char> {
        match *self {
            AnyScanner::Builtin(_) => "RegexScanner"@,
            AnyScanner::Rules(_) => "RuleBasedScanner"@,
        }
    }
}

impl Scanner for AnyScanner {
    /// What the scanner that is held promises.
    open spec fn produces(&self, path: Seq<char>, content: Seq<char>, findings: Seq<Finding>) -> bool {
        match *self {
            AnyScanner::Builtin(s) => s.produces(path, content, findings),
            AnyScanner::Rules(s) => s.produces(path, content, findings),
        }
    }

    fn name(&self) -> (r: String)
        ensures
            r@ == self.held_name(),
    {
        match self {
            AnyScanner::Builtin(s) => s.name(),
            AnyScanner::Rules(s) => s.name(),
        }
    }

    /// The findings of the scanner that is held.
    fn scan_file(&self, path: &str, content: &str) -> (findings: Vec<Finding>) {
        match self {
            AnyScanner::Builtin(s) => s.scan_file(path, content),
            AnyScanner::Rules(s) => s.scan_file(path, content),
        }
    }
}

/// The scanners of a full scan: the built-in textual scanner, and the rule
/// scanner where rules were given.
pub struct FileScanner {
    pub regex_scanner: RegexScanner,
    pub rule_scanner: Option<RuleScanner>,
}

impl FileScanner {
    /// The scanners for a full scan with the given rules. Without rules
    /// there is no rule scanner.
    pub fn new(rules: Vec<Rule>) -> (s: Self)
        ensures
            s.regex_scanner.wf(),
            pattern_views(s.regex_scanner.patterns()) == valid_builtins(3),
            s.rule_scanner is Some <==> rules@.len() > 0,
            s.rule_scanner is Some ==> s.rule_scanner->0.keeps(rule_views(rules@)),
    {
        let rule_scanner = if rules.len() > 0 {
            Some(RuleScanner::new(rules))
        } else {
            None
        };
        FileScanner { regex_scanner: RegexScanner::new(), rule_scanner }
    }

    /// The findings in one file: none for a file that is not indexed by its
    /// extension; else those of the rule scanner, where there is one, and
    /// then those of the built-in scanner.
    pub fn scan_file(&self, path: &str, content: &str) -> (all: Vec<Finding>)
        ensures
            !is_known_extension(extension_of(path@)) ==> all@.len() == 0,
            is_known_extension(extension_of(path@)) ==> exists|k: int|
                #![trigger all@.take(k)]
                0 <= k <= all@.len() && self.regex_scanner.produces(path@, content@, all@.skip(k))
                    && match self.rule_scanner {
                    Some(r) => r.produces(path@, content@, all@.take(k)),
                    None => k == 0,
                },
    {
        let mut all: Vec<Finding> = Vec::new();
        if !is_supported_file(path) {
            return all;
        }
        match &self.rule_scanner {
            Some(r) => {
                let mut found = r.scan_file(path, content);
                let ghost part = found@;
                all.append(&mut found);
                proof {
                    assert(all@ =~= part);
                }
            },
            None => {},
        }
        let ghost first = all@;
        let mut found = self.regex_scanner.scan_file(path, content);
        let ghost second = found@;
        all.append(&mut found);
        proof {
            let k = first.len() as int;
            assert(all@.take(k) =~= first);
            assert(all@.skip(k) =~= second);
        }
        all
    }
}

} // verus!
