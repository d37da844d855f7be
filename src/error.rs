use vstd::prelude::*;
use crate::position::Location;

verus! {

/// The grammar violations that stop a parse.
#[derive(Clone, Copy, Debug, PartialEq, Eq)]
pub enum ErrorKind {
    MissingDataBlockHeader,
    MissingDataItemMarker,
    MissingValueOrLoop,
    UnterminatedSaveFrame,
    UnterminatedQuotedString,
    EmptyValue,
    InvalidValueStart,
}

/// How bad an error is; the parser only reports errors that stop it.
#[derive(Clone, Copy, Debug, PartialEq, Eq)]
pub enum ErrorLevel {
    BreakingError,
}

/// A failure as the grammar states it: its kind and the offsets it spans (equal for a
/// single position).
pub struct Failure {
    pub kind: ErrorKind,
    pub start: int,
    pub end: int,
}

/// An error with the place in the text where it arose. Where it concerns a single
/// position, `start` and `end` are the same.
#[derive(Clone, Copy, Debug, PartialEq, Eq)]
pub struct ParseError {
    pub kind: ErrorKind,
    pub start: Location,
    pub end: Location,
}

impl ParseError {
    /// This error reports the failure `f` in the document `s`.
    pub open spec fn describes(&self, s: Seq<char>, f: Failure) -> bool {
        &&& self.kind == f.kind
        &&& self.start.locates(s, f.start)
        &&& self.end.locates(s, f.end)
    }

    pub fn level(&self) -> (r: ErrorLevel)
        ensures
            r == ErrorLevel::BreakingError,
    {
        ErrorLevel::BreakingError
    }

    /// A short title of the error.
    pub fn title(&self) -> &'static str {
        match self.kind {
            ErrorKind::MissingDataBlockHeader => "Data Block not opened",
            ErrorKind::MissingDataItemMarker => "No valid Data Item",
            ErrorKind::MissingValueOrLoop => "No valid Value",
            ErrorKind::UnterminatedSaveFrame => "No matching 'save_' found",
            ErrorKind::UnterminatedQuotedString => "Invalid enclosing",
            ErrorKind::EmptyValue => "Empty value",
            ErrorKind::InvalidValueStart => "Invalid value",
        }
    }

    /// What went wrong, in a sentence.
    pub fn detail(&self) -> &'static str {
        match self.kind {
            ErrorKind::MissingDataBlockHeader => "The data block should be opened with \"data_\" and a name.",
            ErrorKind::MissingDataItemMarker => "A data item should be started with an underscore '_'.",
            ErrorKind::MissingValueOrLoop => "A Data Item should contain a value or a loop.",
            ErrorKind::UnterminatedSaveFrame => "A save frame was instantiated but not closed (correctly)",
            ErrorKind::UnterminatedQuotedString => "This element was enclosed by a quote but the closing delimiter was not found on its line.",
            ErrorKind::EmptyValue => "No text left",
            ErrorKind::InvalidValueStart => "A value should be '.', '?', a string (possibly enclosed), numeric or a multiline string (starting with ';'), but here is an invalid character.",
        }
    }
}

} // verus!
