//! Errors of evaluation, and the kinds of failure that contracts speak of.
use vstd::prelude::*;

verus! {

/// What went wrong. A JSON or I/O failure carries the message of the
/// failure that the parser or the system reported.
#[derive(Debug)]
pub enum ErrorCode {
    Json(String),
    Io(String),
    InvalidRegex(String),
    Unreachable,
    TypeMismatch { got: String, want: String, by: String },
    NoChildren { by: String },
    MatcherTypeMismatch {
        matcher_type: String,
        matcher_value: String,
        target: String,
        by: String,
    },
    InvalidTarget { pointer: String, value: String },
    InvalidPointer { pointer: String, value: String },
    FilteredByQuery,
    InvalidOption(String),
}

/// The kind of an evaluation failure, without its diagnostic text.
#[derive(PartialEq, Eq, Structural, Clone, Copy, Debug)]
pub enum Fault {
    Json,
    Io,
    InvalidRegex,
    Unreachable,
    TypeMismatch,
    NoChildren,
    MatcherTypeMismatch,
    InvalidTarget,
    InvalidPointer,
    FilteredByQuery,
    InvalidOption,
}

impl ErrorCode {
    /// The text that the error carries, in field order, but for the JSON
    /// text of a document, which is for diagnostics only.
    pub open spec fn details(&self) -> Seq<Seq<char>> {
        match self {
            ErrorCode::Json(m) => seq![m@],
            ErrorCode::Io(m) => seq![m@],
            ErrorCode::InvalidRegex(p) => seq![p@],
            ErrorCode::Unreachable => Seq::empty(),
            ErrorCode::TypeMismatch { got, want, by } => seq![got@, want@, by@],
            ErrorCode::NoChildren { by } => seq![by@],
            ErrorCode::MatcherTypeMismatch { matcher_type, matcher_value, target, by } => seq![
                matcher_type@,
                matcher_value@,
                target@,
                by@,
            ],
            ErrorCode::InvalidTarget { pointer, .. } => seq![pointer@],
            ErrorCode::InvalidPointer { pointer, .. } => seq![pointer@],
            ErrorCode::FilteredByQuery => Seq::empty(),
            ErrorCode::InvalidOption(m) => seq![m@],
        }
    }

    pub open spec fn fault(&self) -> Fault {
        match self {
            ErrorCode::Json(_) => Fault::Json,
            ErrorCode::Io(_) => Fault::Io,
            ErrorCode::InvalidRegex(_) => Fault::InvalidRegex,
            ErrorCode::Unreachable => Fault::Unreachable,
            ErrorCode::TypeMismatch { .. } => Fault::TypeMismatch,
            ErrorCode::NoChildren { .. } => Fault::NoChildren,
            ErrorCode::MatcherTypeMismatch { .. } => Fault::MatcherTypeMismatch,
            ErrorCode::InvalidTarget { .. } => Fault::InvalidTarget,
            ErrorCode::InvalidPointer { .. } => Fault::InvalidPointer,
            ErrorCode::FilteredByQuery => Fault::FilteredByQuery,
            ErrorCode::InvalidOption(_) => Fault::InvalidOption,
        }
    }
}

impl ErrorCode {
    /// The kind of failure (`fault`).
    pub fn kind(&self) -> (r: Fault)
        ensures
            r == self.fault(),
    {
        match self {
            ErrorCode::Json(_) => Fault::Json,
            ErrorCode::Io(_) => Fault::Io,
            ErrorCode::InvalidRegex(_) => Fault::InvalidRegex,
            ErrorCode::Unreachable => Fault::Unreachable,
            ErrorCode::TypeMismatch { .. } => Fault::TypeMismatch,
            ErrorCode::NoChildren { .. } => Fault::NoChildren,
            ErrorCode::MatcherTypeMismatch { .. } => Fault::MatcherTypeMismatch,
            ErrorCode::InvalidTarget { .. } => Fault::InvalidTarget,
            ErrorCode::InvalidPointer { .. } => Fault::InvalidPointer,
            ErrorCode::FilteredByQuery => Fault::FilteredByQuery,
            ErrorCode::InvalidOption(_) => Fault::InvalidOption,
        }
    }
}

/// An error of this library.
#[derive(Debug)]
pub struct Error {
    pub code: ErrorCode,
}

pub type Result<T> = core::result::Result<T, Error>;

/// Whether an outcome of evaluation is the outcome that the model gives: the
/// same boolean, or an error of the same kind.
pub open spec fn agrees(r: Result<bool>, m: core::result::Result<bool, Fault>) -> bool {
    match (r, m) {
        (Ok(x), Ok(y)) => x == y,
        (Err(e), Err(f)) => e.code.fault() == f,
        _ => false,
    }
}

impl Error {
    pub fn new(code: ErrorCode) -> (r: Self)
        ensures
            r.code == code,
    {
        Error { code }
    }

    /// An error for a state that well-formed input never reaches.
    pub fn unreachable() -> (r: Self)
        ensures
            r.code.fault() == Fault::Unreachable,
    {
        Error { code: ErrorCode::Unreachable }
    }

    /// Whether this is the sentinel for a document that the query rejected.
    pub fn is_filtered(&self) -> (r: bool)
        ensures
            r == (self.code.fault() == Fault::FilteredByQuery),
    {
        matches!(self.code, ErrorCode::FilteredByQuery)
    }

    pub fn is_io(&self) -> (r: bool)
        ensures
            r == (self.code.fault() == Fault::Io),
    {
        matches!(self.code, ErrorCode::Io(_))
    }

    pub fn is_json(&self) -> (r: bool)
        ensures
            r == (self.code.fault() == Fault::Json),
    {
        matches!(self.code, ErrorCode::Json(_))
    }
}

} // verus!
