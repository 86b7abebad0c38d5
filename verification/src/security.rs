//! The custom-rule scanner: user patterns by file extension, tried line by
//! line, and the choice of the paths that a directory scan looks at.

use crate::hits::{hit_list, hits_of, in_table, rows_of};
use crate::pattern::{compile_pattern, pattern_is_match, regex_match, regex_valid};
use crate::regex_scanner::{lines_of, split_lines};
use crate::strmap::StrMap;
use crate::text::{concat2, file_extension, is_substring, path_extension, str_contains, texts};
use vstd::prelude::*;

verus! {

/// A user pattern with what to say of a match and how grave it is.
#[derive(Debug)]
pub struct CustomRule {
    pub pattern: String,
    pub message: String,
    pub severity: String,
}

/// A match of a user pattern: the file, the one-based line, the rule's
/// severity and message, and the line itself.
#[derive(Debug)]
pub struct SecurityFinding {
    pub file: String,
    pub line: usize,
    pub severity: String,
    pub message: String,
    pub code: String,
}

/// Whether a finding reports `rule` in the line with the zero-based index
/// `i` among `lines`.
pub open spec fn reports_line(
    f: SecurityFinding,
    path: Seq<char>,
    lines: Seq<Seq<char>>,
    rule: CustomRule,
    i: int,
) -> bool {
    &&& 0 <= i < lines.len()
    &&& f.file@ == path
    &&& f.line == i + 1
    &&& f.severity@ == rule.severity@
    &&& f.message@ == rule.message@
    &&& f.code@ == lines[i]
}

/// Whether `found` reports the hits at the given places, each the
/// zero-based index of a line and the index of a rule: one finding for each
/// place, in order.
pub open spec fn reports_places(
    found: Seq<SecurityFinding>,
    path: Seq<char>,
    lines: Seq<Seq<char>>,
    rules: Seq<CustomRule>,
    places: Seq<(usize, usize)>,
) -> bool {
    found.len() == places.len() && forall|k: int|
        0 <= k < found.len() ==> reports_line(
            #[trigger] found[k],
            path,
            lines,
            rules[places[k].1 as int],
            places[k].0 as int,
        )
}

/// For each of `lines` the answer of each rule to it: whether the rule's
/// pattern is a valid regular expression that matches in the line.
pub open spec fn rule_answers(lines: Seq<Seq<char>>, rules: Seq<CustomRule>) -> Seq<Seq<bool>> {
    Seq::new(
        lines.len(),
        |i: int|
            Seq::new(
                rules.len(),
                |j: int|
                    regex_valid(rules[j].pattern@) && regex_match(rules[j].pattern@, lines[i]),
            ),
    )
}

/// Whether `found` is what a scan of the text with `rules` gives: one
/// finding for every line and every rule whose pattern matches in it, line
/// after line and within a line rule after rule.
pub open spec fn scan_result(
    found: Seq<SecurityFinding>,
    path: Seq<char>,
    content: Seq<char>,
    rules: Seq<CustomRule>,
) -> bool {
    reports_places(
        found,
        path,
        lines_of(content),
        rules,
        hits_of(rule_answers(lines_of(content), rules)),
    )
}

/// The key under which the rules for a file are kept: a dot and the
/// file's extension. A file without extension has none.
pub open spec fn rules_key(path: Seq<char>) -> Option<Seq<char>> {
    match path_extension(path) {
        Some(e) => Some("."@ + e),
        None => None,
    }
}

/// The built-in names of directories that a directory scan passes over.
pub open spec fn default_excludes() -> Seq<Seq<char>> {
    seq![
        "node_modules"@,
        ".git"@,
        "target"@,
        "__pycache__"@,
        ".venv"@,
        "dist"@,
        "build"@,
    ]
}

/// Whether one of `names` occurs in `path`.
pub open spec fn names_any(path: Seq<char>, names: Seq<Seq<char>>) -> bool {
    exists|i: int| 0 <= i < names.len() && is_substring(#[trigger] names[i], path)
}

/// Whether a directory scan looks at `path`: not where a built-in or given
/// exclusion occurs in it; and where inclusions are given, only where one
/// of them occurs in it.
pub open spec fn is_scanned(path: Seq<char>, includes: Seq<Seq<char>>, excludes: Seq<Seq<char>>) -> bool {
    &&& !names_any(path, default_excludes())
    &&& !names_any(path, excludes)
    &&& (includes.len() == 0 || names_any(path, includes))
}

/// Whether one of `names` occurs in `path`.
pub fn any_occurs(path: &str, names: &Vec<String>) -> (r: bool)
    ensures
        r == names_any(path@, texts(names@)),
{
    let mut i: usize = 0;
    while i < names.len()
        invariant
            i <= names.len(),
            forall|k: int| 0 <= k < i ==> !is_substring(#[trigger] texts(names@)[k], path@),
        decreases names.len() - i,
    {
        if str_contains(path, names[i].as_str()) {
            proof {
                assert(is_substring(texts(names@)[i as int], path@));
            }
            return true;
        }
        i += 1;
    }
    false
}

/// The scanner for user patterns.
pub struct SecurityScanner;

impl SecurityScanner {
    /// For each line the answer of each rule to it; a pattern that is not
    /// valid answers no everywhere.
    fn match_table(lines: &Vec<String>, rules: &Vec<CustomRule>) -> (table: Vec<Vec<bool>>)
        ensures
            rows_of(table@) == rule_answers(texts(lines@), rules@),
    {
        let mut table: Vec<Vec<bool>> = Vec::new();
        let mut i: usize = 0;
        while i < lines.len()
            invariant
                i <= lines.len(),
                table@.len() == i,
                forall|a: int| 0 <= a < i ==> (#[trigger] table@[a])@.len() == rules@.len(),
                forall|a: int, b: int|
                    0 <= a < i && 0 <= b < rules@.len() ==> #[trigger] table@[a]@[b] == (regex_valid(
                        rules@[b].pattern@,
                    ) && regex_match(rules@[b].pattern@, lines@[a]@)),
            decreases lines.len() - i,
        {
            let mut row: Vec<bool> = Vec::new();
            let mut j: usize = 0;
            while j < rules.len()
                invariant
                    i < lines.len(),
                    j <= rules.len(),
                    row@.len() == j,
                    forall|b: int|
                        0 <= b < j ==> #[trigger] row@[b] == (regex_valid(rules@[b].pattern@)
                            && regex_match(rules@[b].pattern@, lines@[i as int]@)),
                decreases rules.len() - j,
            {
                let hit = match compile_pattern(rules[j].pattern.as_str()) {
                    Some(re) => pattern_is_match(&re, lines[i].as_str()),
                    None => false,
                };
                row.push(hit);
                j += 1;
            }
            table.push(row);
            i += 1;
        }
        proof {
            assert(texts(lines@).len() == lines@.len());
            assert(rows_of(table@) =~~= rule_answers(texts(lines@), rules@));
        }
        table
    }

    /// The findings for hits at the given places, each the zero-based index
    /// of a line and the index of a rule: one finding for each place, in
    /// order, with the rule's severity and message and the line itself.
    pub fn report(
        file_path: &str,
        lines: &Vec<String>,
        rules: &Vec<CustomRule>,
        places: &Vec<(usize, usize)>,
    ) -> (found: Vec<SecurityFinding>)
        requires
            forall|k: int|
                0 <= k < places@.len() ==> (#[trigger] places@[k]).0 < lines@.len() && places@[k].1
                    < rules@.len(),
        ensures
            reports_places(found@, file_path@, texts(lines@), rules@, places@),
    {
        let mut found: Vec<SecurityFinding> = Vec::new();
        let mut k: usize = 0;
        while k < places.len()
            invariant
                k <= places.len(),
                forall|k: int|
                    0 <= k < places@.len() ==> (#[trigger] places@[k]).0 < lines@.len()
                        && places@[k].1 < rules@.len(),
                reports_places(found@, file_path@, texts(lines@), rules@, places@.take(k as int)),
            decreases places.len() - k,
        {
            let i = places[k].0;
            let rule = &rules[places[k].1];
            let count = lines.len();
            proof {
                assert(i < count);
            }
            let f = SecurityFinding {
                file: file_path.to_string(),
                line: i + 1,
                severity: rule.severity.clone(),
                message: rule.message.clone(),
                code: lines[i].clone(),
            };
            let ghost before = found@;
            found.push(f);
            proof {
                let upto = places@.take(k + 1);
                assert(texts(lines@).len() == lines@.len());
                assert(texts(lines@)[i as int] == lines@[i as int]@);
                assert forall|a: int| 0 <= a < found@.len() implies reports_line(
                    #[trigger] found@[a],
                    file_path@,
                    texts(lines@),
                    rules@[upto[a].1 as int],
                    upto[a].0 as int,
                ) by {
                    if a < before.len() {
                        assert(found@[a] == before[a]);
                        assert(upto[a] == places@.take(k as int)[a]);
                    }
                }
            }
            k += 1;
        }
        proof {
            assert(places@.take(places.len() as int) =~= places@);
        }
        found
    }

    /// The matches of `rules` in the text of one file, line after line and
    /// within a line rule after rule. A pattern that is not valid matches
    /// nothing.
    pub fn scan_content(file_path: &str, content: &str, rules: &Vec<CustomRule>) -> (found: Vec<
        SecurityFinding,
    >)
        ensures
            scan_result(found@, file_path@, content@, rules@),
    {
        let lines = split_lines(content);
        let table = Self::match_table(&lines, rules);
        let places = hit_list(&table);
        proof {
            assert(texts(lines@).len() == lines@.len());
            assert forall|k: int| 0 <= k < places@.len() implies (#[trigger] places@[k]).0
                < lines@.len() && places@[k].1 < rules@.len() by {
                assert(in_table(rows_of(table@), places@[k]));
            }
        }
        let found = Self::report(file_path, &lines, rules, &places);
        found
    }

    /// The matches in one file of the rules kept for its extension: none
    /// for a file without extension or without rules for it.
    pub fn scan_file(file_path: &str, content: &str, custom_rules: &StrMap<Vec<CustomRule>>) -> (found:
        Vec<SecurityFinding>)
        ensures
            match rules_key(file_path@) {
                Some(key) => if custom_rules.has(key) {
                    scan_result(found@, file_path@, content@, custom_rules.value_of(key)@)
                } else {
                    found@.len() == 0
                },
                None => found@.len() == 0,
            },
    {
        match file_extension(file_path) {
            None => Vec::new(),
            Some(ext) => {
                let key = concat2(".", ext.as_str());
                match custom_rules.get(key.as_str()) {
                    Some(rules) => Self::scan_content(file_path, content, rules),
                    None => Vec::new(),
                }
            },
        }
    }

    /// Whether a directory scan looks at `path`.
    pub fn should_scan(path: &str, include_dirs: &Vec<String>, exclude_dirs: &Vec<String>) -> (r: bool)
        ensures
            r == is_scanned(path@, texts(include_dirs@), texts(exclude_dirs@)),
    {
        let mut defaults: Vec<String> = Vec::new();
        defaults.push("node_modules".to_string());
        defaults.push(".git".to_string());
        defaults.push("target".to_string());
        defaults.push("__pycache__".to_string());
        defaults.push(".venv".to_string());
        defaults.push("dist".to_string());
        defaults.push("build".to_string());
        proof {
            assert(texts(defaults@) =~= default_excludes());
        }
        if any_occurs(path, &defaults) || any_occurs(path, exclude_dirs) {
            return false;
        }
        proof {
            assert(texts(include_dirs@).len() == include_dirs@.len());
        }
        include_dirs.len() == 0 || any_occurs(path, include_dirs)
    }
}

} // verus!
