//! Errors and the place in a statement that an error points at.

use vstd::prelude::*;

verus! {

/// A half-open range of positions in the text of a statement.
#[derive(Clone, Copy, PartialEq, Eq, Debug, Structural)]
pub struct Range {
    pub start: usize,
    pub end: usize,
}

/// Where in the statement something stands, if that is known.
pub type Span = Option<Range>;

/// The kinds of error that the library raises itself, and `Other` for one that reaches it from a
/// service, by the number of its code.
#[derive(Clone, Copy, PartialEq, Eq, Debug, Structural)]
pub enum ErrorKind {
    LogicalError,
    AbortedQuery,
    SemanticError,
    BadArguments,
    /// There is no column of a name. The text of the error is that name.
    UnknownColumn,
    Other(u16),
}

/// An error: its kind, the text shown to the user and the place it points at.
#[derive(Debug)]
pub struct ErrorCode {
    pub kind: ErrorKind,
    pub message: String,
    pub span: Span,
}

impl ErrorCode {
    /// The error has the given kind and text and points at no place.
    pub open spec fn says(self, kind: ErrorKind, message: Seq<char>) -> bool {
        &&& self.kind == kind
        &&& self.message@ == message
        &&& self.span is None
    }

    /// An error of the given kind and text that points at no place.
    pub fn create(kind: ErrorKind, message: &str) -> (r: ErrorCode)
        ensures
            r.says(kind, message@),
    {
        ErrorCode { kind, message: message.to_owned(), span: None }
    }

    /// The same error, pointing at `span`.
    pub fn set_span(self, span: Span) -> (r: ErrorCode)
        ensures
            r == (ErrorCode { kind: self.kind, message: self.message, span }),
    {
        ErrorCode { kind: self.kind, message: self.message, span }
    }

    /// The place that the error points at.
    pub fn span(&self) -> (r: Span)
        ensures
            r == self.span,
    {
        self.span
    }
}

} // verus!
