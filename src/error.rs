//! The ways in which scanning a stanza or assembling a package can fail.
use vstd::prelude::*;

verus! {

/// Why a stanza, a field or a dependency expression was rejected. Each
/// variant names the field it arose in (`key`, empty where the failing
/// routine does not know it) and, where there is one, the offending text.
#[derive(Clone, Debug, PartialEq, Eq)]
pub enum ParseError {
    /// A line that is neither a `key: value` line, a continuation, a blank
    /// line nor a comment.
    Scan { line: String },
    /// A required field is absent.
    MissingField { key: String },
    /// A single-line field holds more than one value-line.
    MultiLineViolation { key: String },
    /// A value of the wrong shape, such as a non-integer size.
    TypeError { key: String, text: String },
    /// A token outside a closed enumeration (architecture, priority).
    UnknownEnumToken { key: String, token: String },
    /// A dependency expression that does not follow the grammar.
    DependencyGrammar { key: String, text: String },
    /// A description whose digest differs from the declared one.
    ChecksumMismatch { key: String, expected: String },
}

/// The key that an error names.
pub open spec fn error_key(e: ParseError) -> Seq<char> {
    match e {
        ParseError::Scan { .. } => Seq::empty(),
        ParseError::MissingField { key } => key@,
        ParseError::MultiLineViolation { key } => key@,
        ParseError::TypeError { key, .. } => key@,
        ParseError::UnknownEnumToken { key, .. } => key@,
        ParseError::DependencyGrammar { key, .. } => key@,
        ParseError::ChecksumMismatch { key, .. } => key@,
    }
}

/// Whether two errors are of one kind and carry the same offending text.
pub open spec fn same_kind(a: ParseError, b: ParseError) -> bool {
    match (a, b) {
        (ParseError::Scan { line: x }, ParseError::Scan { line: y }) => x@ == y@,
        (ParseError::MissingField { .. }, ParseError::MissingField { .. }) => true,
        (ParseError::MultiLineViolation { .. }, ParseError::MultiLineViolation { .. }) => true,
        (ParseError::TypeError { text: x, .. }, ParseError::TypeError { text: y, .. }) => x@ == y@,
        (
            ParseError::UnknownEnumToken { token: x, .. },
            ParseError::UnknownEnumToken { token: y, .. },
        ) => x@ == y@,
        (
            ParseError::DependencyGrammar { text: x, .. },
            ParseError::DependencyGrammar { text: y, .. },
        ) => x@ == y@,
        (
            ParseError::ChecksumMismatch { expected: x, .. },
            ParseError::ChecksumMismatch { expected: y, .. },
        ) => x@ == y@,
        _ => false,
    }
}

impl ParseError {
    /// This error, attributed to the field `key`.
    pub fn in_field(self, key: &str) -> (r: ParseError)
        ensures
            same_kind(r, self),
            !(self is Scan) ==> error_key(r) == key@,
    {
        let k = key.to_owned();
        match self {
            ParseError::Scan { line } => ParseError::Scan { line },
            ParseError::MissingField { .. } => ParseError::MissingField { key: k },
            ParseError::MultiLineViolation { .. } => ParseError::MultiLineViolation { key: k },
            ParseError::TypeError { text, .. } => ParseError::TypeError { key: k, text },
            ParseError::UnknownEnumToken { token, .. } => ParseError::UnknownEnumToken {
                key: k,
                token,
            },
            ParseError::DependencyGrammar { text, .. } => ParseError::DependencyGrammar {
                key: k,
                text,
            },
            ParseError::ChecksumMismatch { expected, .. } => ParseError::ChecksumMismatch {
                key: k,
                expected,
            },
        }
    }
}

} // verus!
