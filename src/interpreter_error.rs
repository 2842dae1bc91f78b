//! The error the interpreter reports when it cannot read or create a file.

use vstd::prelude::*;

verus! {

/// How severe a diagnostic is.
#[derive(Clone, Copy, Debug, PartialEq, Eq, Structural)]
pub enum ErrorLevel {
    Error,
    Warning,
    Info,
}

/// A range of characters in a source unit.
#[derive(Clone, Copy, Debug, PartialEq, Eq, Structural)]
pub struct Span {
    pub start: usize,
    pub end: usize,
}

/// An error of the interpreter while reading or creating a file.
#[derive(Clone, Copy, Debug)]
pub struct InterpreterError<'source, 'error> {
    /// Name of the file involved.
    pub file_name: &'source str,
    /// Why the operation failed.
    pub reason: &'error str,
}

impl<'source, 'error> InterpreterError<'source, 'error> {
    /// Name of the error kind.
    pub fn get_name(&self) -> (r: &'error str)
        ensures
            r@ == "I/O Error"@,
    {
        "I/O Error"
    }

    /// The module the error concerns: the file name.
    pub fn get_module(&self) -> (r: &'source str)
        ensures
            r == self.file_name,
    {
        self.file_name
    }

    /// Severity: always an error.
    pub fn get_level(&self) -> (r: ErrorLevel)
        ensures
            r == ErrorLevel::Error,
    {
        ErrorLevel::Error
    }

    /// Source spans: none, a file error points at no source.
    pub fn get_spans(&self) -> (r: Vec<Span>)
        ensures
            r@.len() == 0,
    {
        Vec::new()
    }

    /// The messages: the reason alone.
    pub fn get_info(&self) -> (r: Vec<&'error str>)
        ensures
            r@ == seq![self.reason],
    {
        let mut v = Vec::new();
        v.push(self.reason);
        v
    }

    /// Source lines to show: none.
    pub fn get_lines(&self) -> (r: &'source [&'source str])
        ensures
            r@.len() == 0,
    {
        &[]
    }
}

} // verus!
