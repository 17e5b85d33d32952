//! Parse-time errors. These are collected into [`crate::ast::Program`] by
//! the parser, which records an error and resumes at the next statement
//! boundary instead of aborting.

use vstd::prelude::*;

verus! {

/// A parse error. The carried strings are human-readable descriptions; no
/// contract depends on their exact text.
#[derive(Debug, PartialEq, Eq)]
pub enum Error {
    ParseError,
    LetStatement(String),
    Unsupported(String),
    Args(String),
    Block(String),
    IfError(String),
    FunctionError(String),
    Collection(String),
}

impl Clone for Error {
    /// Cloning an error preserves its value exactly.
    fn clone(&self) -> (r: Error)
        ensures
            r == *self,
    {
        match self {
            Error::ParseError => Error::ParseError,
            Error::LetStatement(s) => Error::LetStatement(s.clone()),
            Error::Unsupported(s) => Error::Unsupported(s.clone()),
            Error::Args(s) => Error::Args(s.clone()),
            Error::Block(s) => Error::Block(s.clone()),
            Error::IfError(s) => Error::IfError(s.clone()),
            Error::FunctionError(s) => Error::FunctionError(s.clone()),
            Error::Collection(s) => Error::Collection(s.clone()),
        }
    }
}

} // verus!
