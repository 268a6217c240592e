//! Error values: a message with optional positions.

use vstd::prelude::*;

use crate::num::{dec_digits, u64_to_chars};
use crate::textutil::string_from_chars;

verus! {

/// Position information for error reporting.
#[derive(Debug, Clone, PartialEq)]
pub struct Position {
    /// Byte offset in the source programme.
    pub source_pos: Option<usize>,
    /// Line number in the input (1-based).
    pub input_line: Option<usize>,
}

/// An error raised while compiling or running a programme: a message plus
/// optional position information, propagated by ordinary return.
#[derive(Debug, PartialEq)]
pub struct Error {
    /// The error message.
    pub message: String,
    /// Position information for the error.
    pub position: Position,
}

/// The rendered text of an error: the message, then any positions in
/// parentheses.
pub open spec fn error_text(msg: Seq<char>, source_pos: Option<usize>, input_line: Option<usize>) -> Seq<char> {
    match (source_pos, input_line) {
        (Some(p), Some(l)) => msg + " (at position "@ + dec_digits(p as nat) + ", input line "@
            + dec_digits(l as nat) + ")"@,
        (Some(p), None) => msg + " (at position "@ + dec_digits(p as nat) + ")"@,
        (None, Some(l)) => msg + " (at input line "@ + dec_digits(l as nat) + ")"@,
        (None, None) => msg,
    }
}

impl Position {
    /// A position with only a source offset.
    pub fn at_source(pos: usize) -> (r: Position)
        ensures
            r.source_pos == Some(pos),
            r.input_line is None,
    {
        Position { source_pos: Some(pos), input_line: None }
    }

    /// A position with only an input line.
    pub fn at_input(line: usize) -> (r: Position)
        ensures
            r.source_pos is None,
            r.input_line == Some(line),
    {
        Position { source_pos: None, input_line: Some(line) }
    }
}

impl Error {
    /// A runtime error with just a message.
    pub fn runtime(message: String) -> (r: Error)
        ensures
            r.message@ == message@,
            r.position.source_pos is None,
            r.position.input_line is None,
    {
        Error { message, position: Position { source_pos: None, input_line: None } }
    }

    /// A runtime error at a source position.
    pub fn at_source(message: String, pos: usize) -> (r: Error)
        ensures
            r.message@ == message@,
            r.position.source_pos == Some(pos),
            r.position.input_line is None,
    {
        Error { message, position: Position::at_source(pos) }
    }

    /// A runtime error at an input line.
    pub fn at_input(message: String, line: usize) -> (r: Error)
        ensures
            r.message@ == message@,
            r.position.source_pos is None,
            r.position.input_line == Some(line),
    {
        Error { message, position: Position::at_input(line) }
    }

    /// The same error with a source position added.
    pub fn with_source_pos(self, pos: usize) -> (r: Error)
        ensures
            r.message@ == self.message@,
            r.position.source_pos == Some(pos),
            r.position.input_line == self.position.input_line,
    {
        Error {
            message: self.message,
            position: Position { source_pos: Some(pos), input_line: self.position.input_line },
        }
    }

    /// The same error with an input line added.
    pub fn with_input_line(self, line: usize) -> (r: Error)
        ensures
            r.message@ == self.message@,
            r.position.source_pos == self.position.source_pos,
            r.position.input_line == Some(line),
    {
        Error {
            message: self.message,
            position: Position { source_pos: self.position.source_pos, input_line: Some(line) },
        }
    }

    /// The error as text: the message, then any positions in parentheses.
    pub fn render(&self) -> (r: String)
        ensures
            r@ == error_text(self.message@, self.position.source_pos, self.position.input_line),
    {
        let mut out: String = self.message.clone();
        match (self.position.source_pos, self.position.input_line) {
            (Some(p), Some(l)) => {
                out.append(" (at position ");
                let pd = string_from_chars(&u64_to_chars(p as u64));
                out.append(pd.as_str());
                out.append(", input line ");
                let ld = string_from_chars(&u64_to_chars(l as u64));
                out.append(ld.as_str());
                out.append(")");
            },
            (Some(p), None) => {
                out.append(" (at position ");
                let pd = string_from_chars(&u64_to_chars(p as u64));
                out.append(pd.as_str());
                out.append(")");
            },
            (None, Some(l)) => {
                out.append(" (at input line ");
                let ld = string_from_chars(&u64_to_chars(l as u64));
                out.append(ld.as_str());
                out.append(")");
            },
            (None, None) => {},
        }
        out
    }
}

/// The result type for compiling and running programmes.
pub type TResult<T> = Result<T, Error>;

} // verus!
