//! Declarative rules: what a rule is, and how severe a finding can be.

use vstd::prelude::*;

verus! {

/// How severe a finding is, from the gravest down.
#[derive(Debug, Clone, Copy, PartialEq, Eq, Structural)]
pub enum Severity {
    Critical,
    High,
    Medium,
    Low,
    Info,
}

/// The rank of a severity: graver is greater.
pub open spec fn severity_rank(s: Severity) -> nat {
    match s {
        Severity::Critical => 4,
        Severity::High => 3,
        Severity::Medium => 2,
        Severity::Low => 1,
        Severity::Info => 0,
    }
}

/// The lower-case word for a severity.
pub open spec fn severity_label(s: Severity) -> Seq<char> {
    match s {
        Severity::Critical => "critical"@,
        Severity::High => "high"@,
        Severity::Medium => "medium"@,
        Severity::Low => "low"@,
        Severity::Info => "info"@,
    }
}

impl Severity {
    /// The rank of the severity: graver is greater.
    pub fn rank(&self) -> (r: u8)
        ensures
            r == severity_rank(*self),
    {
        match self {
            Severity::Critical => 4,
            Severity::High => 3,
            Severity::Medium => 2,
            Severity::Low => 1,
            Severity::Info => 0,
        }
    }

    /// Whether the severity is graver than `other`.
    pub fn is_graver_than(&self, other: &Severity) -> (r: bool)
        ensures
            r == (severity_rank(*self) > severity_rank(*other)),
    {
        self.rank() > other.rank()
    }

    /// The lower-case word for the severity.
    pub fn label(&self) -> (r: String)
        ensures
            r@ == severity_label(*self),
    {
        match self {
            Severity::Critical => "critical".to_string(),
            Severity::High => "high".to_string(),
            Severity::Medium => "medium".to_string(),
            Severity::Low => "low".to_string(),
            Severity::Info => "info".to_string(),
        }
    }
}

/// A rule: what to look for, in which language, and how grave a match is.
/// The textual pattern and the structural query are the two ways to say
/// what to look for.
#[derive(Debug)]
pub struct Rule {
    pub id: String,
    pub name: String,
    pub description: String,
    pub severity: Severity,
    pub language: String,
    pub pattern: Option<String>,
    pub query: Option<String>,
    pub category: Option<String>,
    pub cwe: Option<String>,
}

/// The characters of an optional string.
pub open spec fn text_of(o: Option<String>) -> Option<Seq<char>> {
    match o {
        Some(s) => Some(s@),
        None => None,
    }
}

/// The mathematical content of a `Rule`.
pub struct RuleView {
    pub id: Seq<char>,
    pub name: Seq<char>,
    pub description: Seq<char>,
    pub severity: Severity,
    pub language: Seq<char>,
    pub pattern: Option<Seq<char>>,
    pub query: Option<Seq<char>>,
    pub category: Option<Seq<char>>,
    pub cwe: Option<Seq<char>>,
}

impl View for Rule {
    type V = RuleView;

    open spec fn view(&self) -> RuleView {
        RuleView {
            id: self.id@,
            name: self.name@,
            description: self.description@,
            severity: self.severity,
            language: self.language@,
            pattern: text_of(self.pattern),
            query: text_of(self.query),
            category: text_of(self.category),
            cwe: text_of(self.cwe),
        }
    }
}

/// The contents of a list of rules.
pub open spec fn rule_views(v: Seq<Rule>) -> Seq<RuleView> {
    v.map_values(|r: Rule| r@)
}

/// A copy of an optional string.
pub fn clone_opt(o: &Option<String>) -> (r: Option<String>)
    ensures
        r == *o,
{
    match o {
        Some(s) => Some(s.clone()),
        None => None,
    }
}

impl Rule {
    /// A copy with the same content.
    pub fn duplicate(&self) -> (r: Rule)
        ensures
            r@ == self@,
            r == *self,
    {
        Rule {
            id: self.id.clone(),
            name: self.name.clone(),
            description: self.description.clone(),
            severity: self.severity,
            language: self.language.clone(),
            pattern: clone_opt(&self.pattern),
            query: clone_opt(&self.query),
            category: clone_opt(&self.category),
            cwe: clone_opt(&self.cwe),
        }
    }
}

/// A named, versioned list of rules.
#[derive(Debug)]
pub struct RuleSet {
    pub name: String,
    pub version: String,
    pub rules: Vec<Rule>,
}

} // verus!
