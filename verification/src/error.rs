//! The error type shared across the library's edges.

use crate::text::concat2;
use vstd::prelude::*;

verus! {

/// What can go wrong, by the part of the system in which it went wrong.
/// Each case carries the message of the failure.
#[derive(Debug)]
pub enum CoreError {
    /// A file or directory could not be read or written.
    Io(String),
    /// A text could not be parsed.
    Parse(String),
    /// The index could not answer.
    Ast(String),
    /// A scanner failed.
    Scanner(String),
}

/// The words that introduce the message of an error.
pub open spec fn error_prefix(e: CoreError) -> Seq<char> {
    match e {
        CoreError::Io(_) => "IO error: "@,
        CoreError::Parse(_) => "Parse error: "@,
        CoreError::Ast(_) => "AST error: "@,
        CoreError::Scanner(_) => "Scanner error: "@,
    }
}

/// The message that an error carries.
pub open spec fn error_detail(e: CoreError) -> Seq<char> {
    match e {
        CoreError::Io(m) => m@,
        CoreError::Parse(m) => m@,
        CoreError::Ast(m) => m@,
        CoreError::Scanner(m) => m@,
    }
}

impl CoreError {
    /// The error in words: what kind it is, then its message.
    pub fn message(&self) -> (r: String)
        ensures
            r@ == error_prefix(*self) + error_detail(*self),
    {
        match self {
            CoreError::Io(m) => concat2("IO error: ", m.as_str()),
            CoreError::Parse(m) => concat2("Parse error: ", m.as_str()),
            CoreError::Ast(m) => concat2("AST error: ", m.as_str()),
            CoreError::Scanner(m) => concat2("Scanner error: ", m.as_str()),
        }
    }
}

} // verus!
