//! Regular expressions of the regex crate, each kept together with the
//! text that it was compiled from, so that what it matches can be stated
//! over that text.

use crate::treesitter::is_span;
use vstd::prelude::*;

verus! {

/// A compiled regular expression of the regex crate. Opaque.
#[verifier::external_type_specification]
#[verifier::external_body]
pub struct ExRegex(regex::Regex);

/// Whether the regex crate takes `pattern` as a regular expression: what
/// `Regex::new` decides of it.
pub uninterp spec fn regex_valid(pattern: Seq<char>) -> bool;

/// Whether the regular expression `pattern` matches somewhere in `text`:
/// what `Regex::is_match` answers.
pub uninterp spec fn regex_match(pattern: Seq<char>, text: Seq<char>) -> bool;

/// The matches of the regular expression `pattern` in `text` that
/// `Regex::find_iter` walks through, in its order, each as the byte
/// offsets of its start and its end.
pub uninterp spec fn regex_finds(pattern: Seq<char>, text: Seq<char>) -> Seq<(usize, usize)>;

/// A compiled regular expression with the text it was compiled from. The
/// two belong together: a value is only ever made by compiling its text.
pub struct Pattern {
    source: String,
    regex: regex::Regex,
}

impl View for Pattern {
    type V = Seq<char>;

    /// The text that the expression was compiled from.
    closed spec fn view(&self) -> Seq<char> {
        self.source@
    }
}

/// `Regex::new` of the regex crate: the compiled expression together with
/// its text, or nothing where the crate does not take the pattern. Which
/// patterns it takes is named, not stated.
#[verifier::external_body]
pub(crate) fn compile_pattern(source: &str) -> (r: Option<Pattern>)
    ensures
        r is Some <==> regex_valid(source@),
        r is Some ==> r->0@ == source@,
{
    match regex::Regex::new(source) {
        Ok(regex) => Some(Pattern { source: source.to_string(), regex }),
        Err(_) => None,
    }
}

/// `Regex::is_match` of the regex crate. The answer depends on the
/// expression's text and on `text` alone; it is named, not stated.
#[verifier::external_body]
pub(crate) fn pattern_is_match(pattern: &Pattern, text: &str) -> (hit: bool)
    ensures
        hit == regex_match(pattern@, text@),
{
    pattern.regex.is_match(text)
}

/// `Regex::find_iter` of the regex crate: for every match in `content`
/// that does not overlap an earlier one, in order, the byte offsets of its
/// start and end. The matches depend on the expression's text and on
/// `content` alone; they are named, not stated. Of each match the crate
/// says that it starts and ends between characters of the text, and does
/// not start behind its end.
#[verifier::external_body]
pub(crate) fn pattern_spans(pattern: &Pattern, content: &str) -> (spans: Vec<(usize, usize)>)
    ensures
        spans@ == regex_finds(pattern@, content@),
        forall|k: int|
            0 <= k < spans@.len() ==> is_span(content@, (#[trigger] spans@[k]).0, spans@[k].1),
{
    pattern.regex.find_iter(content).map(|m| (m.start(), m.end())).collect()
}

} // verus!
