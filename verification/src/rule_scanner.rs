//! The rule scanner: rules compiled to matchers, and the findings of the
//! matchers in one file.

use crate::pattern::{compile_pattern, pattern_spans, regex_finds, regex_valid, Pattern};
use crate::rules::{rule_views, severity_label, Rule, RuleView};
use crate::scanner::{
    finding_views, lemma_finding_views_add, lemma_finding_views_push, new_finding_id, Finding,
    FindingView, Scanner,
};
use crate::text::{
    concat2, extension, extension_of, lowercase, to_chars, to_lowercase,
};
use crate::treesitter::{
    are_hits_in, compile_query, is_span, query_matches, GrammarQuery, NamedGrammar, QueryHit,
};
use vstd::prelude::*;
use vstd::string::StringSliceAdditionalSpecFns;

verus! {

/// The lower-case form of an ASCII letter; other characters unchanged.
pub open spec fn ascii_lower(c: char) -> char {
    if 'A' <= c && c <= 'Z' {
        ((c as u8 + 32) as u8) as char
    } else {
        c
    }
}

/// Whether two texts are equal when ASCII letters are compared without
/// regard to case.
pub open spec fn same_ignoring_ascii_case(a: Seq<char>, b: Seq<char>) -> bool {
    a.len() == b.len() && forall|i: int| 0 <= i < a.len() ==> ascii_lower(a[i]) == ascii_lower(b[i])
}

fn to_ascii_lower(c: char) -> (r: char)
    ensures
        r == ascii_lower(c),
{
    if 'A' <= c && c <= 'Z' {
        ((c as u8 + 32) as u8) as char
    } else {
        c
    }
}

/// Whether two texts are equal when ASCII letters are compared without
/// regard to case.
pub fn eq_ignore_ascii_case(a: &str, b: &str) -> (r: bool)
    ensures
        r == same_ignoring_ascii_case(a@, b@),
{
    let x = to_chars(a);
    let y = to_chars(b);
    if x.len() != y.len() {
        return false;
    }
    let mut i: usize = 0;
    while i < x.len()
        invariant
            i <= x.len(),
            x.len() == y.len(),
            x@ == a@,
            y@ == b@,
            forall|k: int| 0 <= k < i ==> ascii_lower(x@[k]) == ascii_lower(y@[k]),
        decreases x.len() - i,
    {
        if to_ascii_lower(x[i]) != to_ascii_lower(y[i]) {
            proof {
                assert(ascii_lower(a@[i as int]) != ascii_lower(b@[i as int]));
            }
            return false;
        }
        i += 1;
    }
    true
}

/// Whether a rule for `language` applies to files with the lower-case
/// extension `ext`. The language is read without regard to case; `all` and
/// `*` apply everywhere; a language without a list of its own applies to
/// the extension that spells it.
pub open spec fn language_applies(language: Seq<char>, ext: Seq<char>) -> bool {
    let l = lowercase(language);
    if l == "python"@ {
        ext == "py"@
    } else if l == "javascript"@ || l == "typescript"@ {
        ext == "js"@ || ext == "jsx"@ || ext == "ts"@ || ext == "tsx"@ || ext == "mjs"@ || ext
            == "cjs"@
    } else if l == "rust"@ {
        ext == "rs"@
    } else if l == "go"@ {
        ext == "go"@
    } else if l == "java"@ {
        ext == "java"@
    } else if l == "c"@ {
        ext == "c"@ || ext == "h"@
    } else if l == "cpp"@ {
        ext == "cpp"@ || ext == "hpp"@ || ext == "cc"@ || ext == "cxx"@
    } else if l == "all"@ || l == "*"@ {
        true
    } else {
        same_ignoring_ascii_case(language, ext)
    }
}

/// Whether a rule for `language` applies to files with the extension
/// `extension`.
pub fn rule_matches_extension(language: &str, extension: &str) -> (r: bool)
    ensures
        r == language_applies(language@, extension@),
{
    let lang = to_lowercase(language);
    let l = lang.as_str();
    if l.eq("python") {
        extension.eq("py")
    } else if l.eq("javascript") || l.eq("typescript") {
        extension.eq("js") || extension.eq("jsx") || extension.eq("ts") || extension.eq("tsx")
            || extension.eq("mjs") || extension.eq("cjs")
    } else if l.eq("rust") {
        extension.eq("rs")
    } else if l.eq("go") {
        extension.eq("go")
    } else if l.eq("java") {
        extension.eq("java")
    } else if l.eq("c") {
        extension.eq("c") || extension.eq("h")
    } else if l.eq("cpp") {
        extension.eq("cpp") || extension.eq("hpp") || extension.eq("cc") || extension.eq("cxx")
    } else if l.eq("all") || l.eq("*") {
        true
    } else {
        eq_ignore_ascii_case(language, extension)
    }
}

/// Whether a grammar is registered for a rule language.
pub open spec fn has_grammar(language: Seq<char>) -> bool {
    let l = lowercase(language);
    l == "python"@ || l == "javascript"@ || l == "typescript"@ || l == "rust"@ || l == "go"@ || l
        == "java"@ || l == "c"@ || l == "cpp"@ || l == "json"@ || l == "html"@
}

/// The grammar registered for a rule language: the one named like the
/// language in lower case.
pub fn get_language_for_rule(language: &str) -> (r: Option<NamedGrammar>)
    ensures
        r is Some == has_grammar(language@),
        r is Some ==> r->0@ == lowercase(language@),
{
    let lang = to_lowercase(language);
    let l = lang.as_str();
    if l.eq("python") {
        Some(NamedGrammar::python())
    } else if l.eq("javascript") {
        Some(NamedGrammar::javascript())
    } else if l.eq("typescript") {
        Some(NamedGrammar::typescript())
    } else if l.eq("rust") {
        Some(NamedGrammar::rust())
    } else if l.eq("go") {
        Some(NamedGrammar::go())
    } else if l.eq("java") {
        Some(NamedGrammar::java())
    } else if l.eq("c") {
        Some(NamedGrammar::c())
    } else if l.eq("cpp") {
        Some(NamedGrammar::cpp())
    } else if l.eq("json") {
        Some(NamedGrammar::json())
    } else if l.eq("html") {
        Some(NamedGrammar::html())
    } else {
        None
    }
}

/// How many of the bytes are line feeds.
pub open spec fn newlines_in(bytes: Seq<u8>) -> nat
    decreases bytes.len(),
{
    if bytes.len() == 0 {
        0
    } else {
        newlines_in(bytes.drop_last()) + if bytes.last() == 10u8 {
            1nat
        } else {
            0nat
        }
    }
}

/// There are no more line feeds than bytes.
pub proof fn lemma_newlines_bound(bytes: Seq<u8>)
    ensures
        newlines_in(bytes) <= bytes.len(),
    decreases bytes.len(),
{
    if bytes.len() > 0 {
        lemma_newlines_bound(bytes.drop_last());
    }
}

/// The one-based line in which the byte offset `pos` of a text lies: one
/// more than the line feeds before it. An offset behind the end counts as
/// the end.
pub open spec fn line_at(bytes: Seq<u8>, pos: usize) -> usize {
    let upto = if pos <= bytes.len() {
        pos as int
    } else {
        bytes.len() as int
    };
    let n = newlines_in(bytes.take(upto));
    if n < usize::MAX {
        (n + 1) as usize
    } else {
        usize::MAX
    }
}

/// A later byte offset lies in no earlier line.
pub proof fn lemma_line_at_ordered(bytes: Seq<u8>, a: usize, b: usize)
    requires
        a <= b,
    ensures
        line_at(bytes, a) <= line_at(bytes, b),
{
    let upto_a = if a <= bytes.len() {
        a as int
    } else {
        bytes.len() as int
    };
    let upto_b = if b <= bytes.len() {
        b as int
    } else {
        bytes.len() as int
    };
    lemma_newlines_grow(bytes, upto_a, upto_b);
}

/// A longer beginning of a text holds no fewer line feeds.
pub proof fn lemma_newlines_grow(bytes: Seq<u8>, a: int, b: int)
    requires
        0 <= a <= b <= bytes.len(),
    ensures
        newlines_in(bytes.take(a)) <= newlines_in(bytes.take(b)),
    decreases b - a,
{
    if a < b {
        lemma_newlines_grow(bytes, a, b - 1);
        assert(bytes.take(b).drop_last() =~= bytes.take(b - 1));
    }
}

/// The one-based line in which the byte offset `pos` of `content` lies.
pub fn line_of_offset(content: &str, pos: usize) -> (line: usize)
    ensures
        line == line_at(content.spec_bytes(), pos),
{
    let bytes = content.as_bytes();
    let upto = if pos <= bytes.len() {
        pos
    } else {
        bytes.len()
    };
    let mut n: usize = 0;
    let mut i: usize = 0;
    proof {
        assert(bytes@.take(0) =~= Seq::<u8>::empty());
    }
    while i < upto
        invariant
            i <= upto <= bytes@.len(),
            n == newlines_in(bytes@.take(i as int)),
            n <= i,
        decreases upto - i,
    {
        proof {
            assert(bytes@.take(i + 1).drop_last() =~= bytes@.take(i as int));
            assert(bytes@.take(i + 1).last() == bytes@[i as int]);
        }
        if bytes[i] == 10u8 {
            n += 1;
        }
        i += 1;
    }
    if n < usize::MAX {
        n + 1
    } else {
        usize::MAX
    }
}

/// The one-based line of a zero-based row, held at the largest `usize`.
pub open spec fn row_line(row: usize) -> usize {
    if row < usize::MAX {
        (row + 1) as usize
    } else {
        usize::MAX
    }
}

fn line_of_row(row: usize) -> (line: usize)
    ensures
        line == row_line(row),
{
    if row < usize::MAX {
        row + 1
    } else {
        usize::MAX
    }
}

/// The detector name of a textual match of the rule with the id `id`.
pub open spec fn regex_detector(id: Seq<char>) -> Seq<char> {
    "RegexRule:"@ + id
}

/// The detector name of a structural match of the rule with the id `id`.
pub open spec fn ast_detector(id: Seq<char>) -> Seq<char> {
    "ASTRule:"@ + id
}

/// What a finding of `rule` in the file at `path` says: the given lines and
/// detector, the rule's CWE tag as its type or `Unknown` where the rule has
/// none, the rule's severity and description, and nothing else.
pub open spec fn finding_for(
    rule: RuleView,
    path: Seq<char>,
    line_start: usize,
    line_end: usize,
    detector: Seq<char>,
) -> FindingView {
    FindingView {
        file_path: path,
        line_start,
        line_end,
        detector,
        vuln_type: match rule.cwe {
            Some(c) => c,
            None => "Unknown"@,
        },
        severity: severity_label(rule.severity),
        description: rule.description,
        analysis_trail: None,
        llm_output: None,
    }
}

/// The finding of `rule` in the file at `path` with the given lines,
/// detector and id.
pub fn create_finding(
    rule: &Rule,
    path: &str,
    line_start: usize,
    line_end: usize,
    detector: String,
    finding_id: String,
) -> (f: Finding)
    ensures
        f@ == finding_for(rule@, path@, line_start, line_end, detector@),
        f.finding_id == finding_id,
{
    Finding {
        finding_id,
        file_path: path.to_string(),
        line_start,
        line_end,
        detector,
        vuln_type: match &rule.cwe {
            Some(c) => c.clone(),
            None => "Unknown".to_string(),
        },
        severity: rule.severity.label(),
        description: rule.description.clone(),
        analysis_trail: None,
        llm_output: None,
    }
}

/// The findings of a textual rule for the given matches: one for every
/// match, with the lines in which the match starts and ends.
pub open spec fn textual_findings(
    rule: RuleView,
    path: Seq<char>,
    bytes: Seq<u8>,
    spans: Seq<(usize, usize)>,
) -> Seq<FindingView> {
    spans.map_values(
        |s: (usize, usize)|
            finding_for(rule, path, line_at(bytes, s.0), line_at(bytes, s.1), regex_detector(rule.id)),
    )
}

/// A finding for a match that does not start behind its end does not
/// start in a later line than it ends in.
pub proof fn lemma_textual_lines_ordered(
    rule: RuleView,
    path: Seq<char>,
    bytes: Seq<u8>,
    spans: Seq<(usize, usize)>,
    k: int,
)
    requires
        0 <= k < spans.len(),
        spans[k].0 <= spans[k].1,
    ensures
        textual_findings(rule, path, bytes, spans)[k].line_start <= textual_findings(
            rule,
            path,
            bytes,
            spans,
        )[k].line_end,
{
    lemma_line_at_ordered(bytes, spans[k].0, spans[k].1);
}

/// The finding of a structural rule for one match: none for a match
/// without captures, else one with the lines of the first capture.
pub open spec fn structural_finding(rule: RuleView, path: Seq<char>, hits: Vec<QueryHit>) -> Option<
    FindingView,
> {
    if hits@.len() == 0 {
        None
    } else {
        Some(
            finding_for(
                rule,
                path,
                row_line(hits@[0].start_row),
                row_line(hits@[0].end_row),
                ast_detector(rule.id),
            ),
        )
    }
}

/// The findings of a structural rule for the given matches.
pub open spec fn structural_findings(
    rule: RuleView,
    path: Seq<char>,
    matches: Seq<Vec<QueryHit>>,
) -> Seq<FindingView> {
    matches.filter_map(|m: Vec<QueryHit>| structural_finding(rule, path, m))
}

/// The findings of a textual rule in the file at `path` with the text
/// `content`, for the matches at the byte offsets `spans`.
pub fn findings_for_spans(rule: &Rule, path: &str, content: &str, spans: &Vec<(usize, usize)>) -> (r:
    Vec<Finding>)
    ensures
        finding_views(r@) == textual_findings(rule@, path@, content.spec_bytes(), spans@),
{
    let mut r: Vec<Finding> = Vec::new();
    let mut i: usize = 0;
    let ghost want = textual_findings(rule@, path@, content.spec_bytes(), spans@);
    proof {
        assert(finding_views(r@) =~= want.take(0));
    }
    while i < spans.len()
        invariant
            i <= spans.len(),
            want == textual_findings(rule@, path@, content.spec_bytes(), spans@),
            finding_views(r@) == want.take(i as int),
        decreases spans.len() - i,
    {
        let s = spans[i];
        let f = create_finding(
            rule,
            path,
            line_of_offset(content, s.0),
            line_of_offset(content, s.1),
            concat2("RegexRule:", rule.id.as_str()),
            new_finding_id(),
        );
        proof {
            lemma_finding_views_push(r@, f);
            assert(want.take(i as int).push(want[i as int]) =~= want.take(i + 1));
        }
        r.push(f);
        i += 1;
    }
    proof {
        assert(want.take(spans.len() as int) =~= want);
    }
    r
}

/// The findings of a structural rule in the file at `path` for the given
/// matches.
pub fn findings_for_matches(rule: &Rule, path: &str, matches: &Vec<Vec<QueryHit>>) -> (r: Vec<
    Finding,
>)
    ensures
        finding_views(r@) == structural_findings(rule@, path@, matches@),
{
    let mut r: Vec<Finding> = Vec::new();
    let mut i: usize = 0;
    let ghost f = |m: Vec<QueryHit>| structural_finding(rule@, path@, m);
    proof {
        assert(matches@.take(0) =~= Seq::empty());
        assert(finding_views(r@) =~= Seq::empty());
    }
    while i < matches.len()
        invariant
            i <= matches.len(),
            f == (|m: Vec<QueryHit>| structural_finding(rule@, path@, m)),
            finding_views(r@) == matches@.take(i as int).filter_map(f),
        decreases matches.len() - i,
    {
        let ghost before = finding_views(r@);
        proof {
            matches@.lemma_filter_map_take_succ(f, i as int);
        }
        let m = &matches[i];
        if m.len() > 0 {
            let found = create_finding(
                rule,
                path,
                line_of_row(m[0].start_row),
                line_of_row(m[0].end_row),
                concat2("ASTRule:", rule.id.as_str()),
                new_finding_id(),
            );
            proof {
                lemma_finding_views_push(r@, found);
                assert(before.push(found@) =~= before + seq![found@]);
            }
            r.push(found);
        } else {
            proof {
                assert(before + Seq::<FindingView>::empty() =~= before);
            }
        }
        i += 1;
    }
    proof {
        assert(matches@.take(matches.len() as int) =~= matches@);
    }
    r
}

/// What a rule was compiled to.
pub enum RuleMatcher {
    /// A textual pattern.
    Regex(Pattern),
    /// A structural query.
    TreeSitter(GrammarQuery),
}

/// A rule with its matcher and, for a structural rule, its grammar.
pub struct CompiledRule {
    pub rule: Rule,
    pub matcher: RuleMatcher,
    pub language: Option<NamedGrammar>,
}

/// Which kind of matcher a rule asks for: a structural one where it has a
/// query, else a textual one where it has a pattern.
#[derive(Debug, Clone, Copy, PartialEq, Eq, Structural)]
pub enum MatcherKind {
    Query,
    Pattern,
    Nothing,
}

/// The kind of matcher that a rule asks for.
pub open spec fn wanted(rule: RuleView) -> MatcherKind {
    if rule.query is Some {
        MatcherKind::Query
    } else if rule.pattern is Some {
        MatcherKind::Pattern
    } else {
        MatcherKind::Nothing
    }
}

impl CompiledRule {
    /// Validity: the matcher is of the kind that the rule asks for; a
    /// textual one is compiled from the rule's pattern; and a structural
    /// one is compiled from the rule's query for the grammar that is
    /// registered for the rule's language.
    pub open spec fn wf(&self) -> bool {
        match self.matcher {
            RuleMatcher::Regex(p) => wanted(self.rule@) == MatcherKind::Pattern && self.rule@.pattern
                == Some(p@),
            RuleMatcher::TreeSitter(q) => {
                &&& wanted(self.rule@) == MatcherKind::Query
                &&& self.language is Some
                &&& has_grammar(self.rule.language@)
                &&& q.grammar() == lowercase(self.rule.language@)
                &&& self.rule@.query == Some(q.source())
            },
        }
    }
}

/// The rules of a list of compiled rules.
pub open spec fn compiled_rules(v: Seq<CompiledRule>) -> Seq<RuleView> {
    v.map_values(|c: CompiledRule| c.rule@)
}

/// Whether `a` arises from `b` by leaving elements out.
pub open spec fn is_subsequence(a: Seq<RuleView>, b: Seq<RuleView>) -> bool
    decreases b.len(),
{
    if a.len() == 0 {
        true
    } else if b.len() == 0 {
        false
    } else {
        (a.last() == b.last() && is_subsequence(a.drop_last(), b.drop_last())) || is_subsequence(
            a,
            b.drop_last(),
        )
    }
}

/// Whether a rule may have compiled (`took`) or not: a textual rule
/// compiles exactly where its pattern is a valid regular expression; a
/// structural rule only where a grammar is registered for its language,
/// and then where the grammar takes its query; a rule with neither pattern
/// nor query never.
pub open spec fn outcome_ok(rule: RuleView, took: bool) -> bool {
    match wanted(rule) {
        MatcherKind::Pattern => took == regex_valid(rule.pattern->0),
        MatcherKind::Query => took ==> has_grammar(rule.language),
        MatcherKind::Nothing => !took,
    }
}

/// The rules among the first `took.len()` of `rules` that compiled, in
/// order, where `took` says of each whether it did.
pub open spec fn chosen(rules: Seq<RuleView>, took: Seq<bool>) -> Seq<RuleView>
    decreases took.len(),
{
    if took.len() == 0 {
        Seq::empty()
    } else if took.last() {
        chosen(rules, took.drop_last()).push(rules[took.len() - 1])
    } else {
        chosen(rules, took.drop_last())
    }
}

/// The rule compiled to its matcher: a structural one where the rule has a
/// query, a textual one where it has only a pattern. Nothing where the rule
/// has neither, where no grammar is registered for the language of a
/// structural rule, or where the query or pattern is refused.
pub fn compile_rule(rule: &Rule) -> (r: Option<CompiledRule>)
    ensures
        match r {
            Some(c) => c.rule@ == rule@ && c.wf(),
            None => true,
        },
        outcome_ok(rule@, r is Some),
{
    match &rule.query {
        Some(source) => match get_language_for_rule(rule.language.as_str()) {
            Some(lang) => match compile_query(&lang, source.as_str()) {
                Some(query) => Some(
                    CompiledRule {
                        rule: rule.duplicate(),
                        matcher: RuleMatcher::TreeSitter(query),
                        language: Some(lang),
                    },
                ),
                None => None,
            },
            None => None,
        },
        None => match &rule.pattern {
            Some(pattern) => match compile_pattern(pattern.as_str()) {
                Some(re) => Some(
                    CompiledRule {
                        rule: rule.duplicate(),
                        matcher: RuleMatcher::Regex(re),
                        language: None,
                    },
                ),
                None => None,
            },
            None => None,
        },
    }
}

/// What the findings of one compiled rule in one file are: none where
/// the rule's language does not apply to the file; else those of a textual
/// rule for the matches of its pattern in the text, or those of a
/// structural rule for some matches in the text.
pub open spec fn rule_findings_ok(
    c: CompiledRule,
    path: Seq<char>,
    content: Seq<char>,
    found: Seq<FindingView>,
) -> bool {
    if !language_applies(c.rule.language@, lowercase(extension_of(path))) {
        found.len() == 0
    } else {
        match c.matcher {
            RuleMatcher::Regex(p) => {
                &&& found == textual_findings(
                    c.rule@,
                    path,
                    vstd::utf8::encode_utf8(content),
                    regex_finds(p@, content),
                )
                &&& forall|k: int|
                    0 <= k < found.len() ==> (#[trigger] found[k]).line_start <= found[k].line_end
            },
            RuleMatcher::TreeSitter(_) => exists|matches: Seq<Vec<QueryHit>>|
                are_hits_in(matches, content) && found == #[trigger] structural_findings(
                    c.rule@,
                    path,
                    matches,
                ),
        }
    }
}

/// Whether `all` is made of the findings of the compiled rules, rule after
/// rule in order.
pub open spec fn all_findings_ok(
    rules: Seq<CompiledRule>,
    path: Seq<char>,
    content: Seq<char>,
    all: Seq<FindingView>,
) -> bool
    decreases rules.len(),
{
    if rules.len() == 0 {
        all.len() == 0
    } else {
        exists|k: int|
            #![trigger all.take(k)]
            0 <= k <= all.len() && all_findings_ok(rules.drop_last(), path, content, all.take(k))
                && rule_findings_ok(rules.last(), path, content, all.skip(k))
    }
}

/// The findings of one compiled rule in the file at `path` with the text
/// `content` and the lower-case extension `ext`.
fn scan_with_rule(c: &CompiledRule, path: &str, content: &str, ext: &str) -> (r: Vec<Finding>)
    requires
        ext@ == lowercase(extension_of(path@)),
    ensures
        rule_findings_ok(*c, path@, content@, finding_views(r@)),
{
    if !rule_matches_extension(c.rule.language.as_str(), ext) {
        let r: Vec<Finding> = Vec::new();
        proof {
            assert(finding_views(r@).len() == 0);
        }
        return r;
    }
    match &c.matcher {
        RuleMatcher::Regex(re) => {
            let spans = pattern_spans(re, content);
            let r = findings_for_spans(&c.rule, path, content, &spans);
            proof {
                let bytes = vstd::utf8::encode_utf8(content@);
                assert(finding_views(r@) == textual_findings(c.rule@, path@, bytes, spans@));
                assert forall|k: int| 0 <= k < finding_views(r@).len() implies (#[trigger] finding_views(
                    r@,
                )[k]).line_start <= finding_views(r@)[k].line_end by {
                    assert(is_span(content@, spans@[k].0, spans@[k].1));
                    lemma_textual_lines_ordered(c.rule@, path@, bytes, spans@, k);
                }
            }
            r
        },
        RuleMatcher::TreeSitter(query) => {
            let matches: Vec<Vec<QueryHit>> = query_matches(query, content);
            let r = findings_for_matches(&c.rule, path, &matches);
            proof {
                assert(finding_views(r@) == structural_findings(c.rule@, path@, matches@));
            }
            r
        },
    }
}

/// A scanner that evaluates a set of compiled rules.
pub struct RuleScanner {
    compiled_rules: Vec<CompiledRule>,
}

impl RuleScanner {
    /// The compiled rules, in order.
    pub closed spec fn compiled(&self) -> Seq<CompiledRule> {
        self.compiled_rules@
    }

    /// The rules that were kept.
    pub open spec fn kept(&self) -> Seq<RuleView> {
        compiled_rules(self.compiled())
    }

    /// Whether the kept rules are those of `rules` that compiled, in order,
    /// for some outcome of each compilation that the rule allows.
    pub open spec fn keeps(&self, rules: Seq<RuleView>) -> bool {
        exists|took: Seq<bool>|
            {
                &&& took.len() == rules.len()
                &&& forall|i: int| 0 <= i < rules.len() ==> outcome_ok(rules[i], #[trigger] took[i])
                &&& self.kept() == #[trigger] chosen(rules, took)
            }
    }

    /// Compiles every rule. Rules that do not compile are left out; the
    /// others keep their order.
    pub fn new(rules: Vec<Rule>) -> (s: Self)
        ensures
            s.keeps(rule_views(rules@)),
            is_subsequence(s.kept(), rule_views(rules@)),
            forall|i: int| 0 <= i < s.compiled().len() ==> (#[trigger] s.compiled()[i]).wf(),
    {
        let mut compiled: Vec<CompiledRule> = Vec::new();
        let mut i: usize = 0;
        let ghost mut took: Seq<bool> = Seq::empty();
        proof {
            assert(compiled_rules(compiled@) =~= chosen(rule_views(rules@), took));
        }
        while i < rules.len()
            invariant
                i <= rules.len(),
                took.len() == i,
                forall|k: int| 0 <= k < i ==> outcome_ok(rule_views(rules@)[k], #[trigger] took[k]),
                compiled_rules(compiled@) == chosen(rule_views(rules@), took),
                is_subsequence(compiled_rules(compiled@), rule_views(rules@).take(i as int)),
                forall|k: int| 0 <= k < compiled@.len() ==> (#[trigger] compiled@[k]).wf(),
            decreases rules.len() - i,
        {
            let ghost before = compiled_rules(compiled@);
            let ghost upto = rule_views(rules@).take(i + 1);
            let ghost earlier = took;
            proof {
                assert(upto.drop_last() =~= rule_views(rules@).take(i as int));
                assert(upto.last() == rules@[i as int]@);
            }
            match compile_rule(&rules[i]) {
                Some(c) => {
                    compiled.push(c);
                    proof {
                        let after = compiled_rules(compiled@);
                        assert(after.last() == c.rule@);
                        assert(after.drop_last() =~= before);
                        took = took.push(true);
                        assert(took.drop_last() =~= earlier);
                        assert(after =~= before.push(c.rule@));
                    }
                },
                None => {
                    proof {
                        took = took.push(false);
                        assert(took.drop_last() =~= earlier);
                    }
                },
            }
            i += 1;
        }
        proof {
            assert(rule_views(rules@).take(rules.len() as int) =~= rule_views(rules@));
        }
        RuleScanner { compiled_rules: compiled }
    }

    /// How many rules were kept.
    pub fn rule_count(&self) -> (n: usize)
        ensures
            n == self.compiled().len(),
    {
        self.compiled_rules.len()
    }
}

impl Scanner for RuleScanner {
    open spec fn produces(&self, path: Seq<char>, content: Seq<char>, findings: Seq<Finding>) -> bool {
        all_findings_ok(self.compiled(), path, content, finding_views(findings))
    }

    fn name(&self) -> (r: String)
        ensures
            r@ == "RuleBasedScanner"@,
    {
        "RuleBasedScanner".to_string()
    }

    /// The findings of all kept rules in one file, rule after rule.
    fn scan_file(&self, path: &str, content: &str) -> (findings: Vec<Finding>) {
        let ext = to_lowercase(extension(path).as_str());
        let mut all: Vec<Finding> = Vec::new();
        let mut i: usize = 0;
        proof {
            assert(self.compiled_rules@.take(0) =~= Seq::empty());
            assert(finding_views(all@).len() == 0);
        }
        while i < self.compiled_rules.len()
            invariant
                i <= self.compiled_rules.len(),
                ext@ == lowercase(extension_of(path@)),
                all_findings_ok(
                    self.compiled_rules@.take(i as int),
                    path@,
                    content@,
                    finding_views(all@),
                ),
            decreases self.compiled_rules.len() - i,
        {
            let ghost before = all@;
            let mut found = scan_with_rule(&self.compiled_rules[i], path, content, ext.as_str());
            let ghost part = found@;
            all.append(&mut found);
            proof {
                let next = self.compiled_rules@.take(i + 1);
                assert(next.drop_last() =~= self.compiled_rules@.take(i as int));
                assert(next.last() == self.compiled_rules@[i as int]);
                lemma_finding_views_add(before, part);
                let views = finding_views(all@);
                let k = before.len() as int;
                assert(views.take(k) =~= finding_views(before));
                assert(views.skip(k) =~= finding_views(part));
            }
            i += 1;
        }
        proof {
            assert(self.compiled_rules@.take(self.compiled_rules.len() as int)
                =~= self.compiled_rules@);
        }
        all
    }
}

} // verus!
