//! The failures of parsing and of evaluation.

use vstd::prelude::*;

verus! {

/// A failed parse: the grammar expected something that the tokens did not
/// hold.
#[derive(Debug)]
pub struct ParseError {
    pub message: String,
}

impl View for ParseError {
    type V = Seq<char>;

    open spec fn view(&self) -> Seq<char> {
        self.message@
    }
}

impl ParseError {
    pub fn new(message: &str) -> (r: Self)
        ensures
            r@ == message@,
    {
        ParseError { message: String::from_str(message) }
    }

    /// The message of the error.
    pub fn to_string(&self) -> (r: String)
        ensures
            r@ == self@,
    {
        self.message.clone()
    }
}

/// A failed evaluation, with the line of the operator at which it failed.
#[derive(Debug)]
pub struct RuntimeError {
    pub message: String,
    pub line: usize,
}

/// The mathematical model of a [`RuntimeError`].
pub struct SpecRuntimeError {
    pub message: Seq<char>,
    pub line: usize,
}

impl View for RuntimeError {
    type V = SpecRuntimeError;

    open spec fn view(&self) -> SpecRuntimeError {
        SpecRuntimeError { message: self.message@, line: self.line }
    }
}

impl RuntimeError {
    pub fn new(message: &str, line: usize) -> (r: Self)
        ensures
            r@ == (SpecRuntimeError { message: message@, line }),
    {
        RuntimeError { message: String::from_str(message), line }
    }

    /// The message of the error, without its line.
    pub fn to_string(&self) -> (r: String)
        ensures
            r@ == self@.message,
    {
        self.message.clone()
    }
}

} // verus!
