//! What can be wrong with the text of a version or of a range.
use vstd::prelude::*;

verus! {

/// The ways in which the text of a version or of a range can be at fault.
#[derive(Clone, Copy, PartialEq, Eq, Structural, Debug)]
pub enum ParseErrorKind {
    /// No major number stands at the start of the version.
    MissingMajor,
    /// A field that must be a number is not a decimal number of 32 bits.
    InvalidNumber,
    /// A `^` or `~` comparator on a number so large that the range has no
    /// upper bound.
    MalformedComparator,
}

/// Why a text was rejected, with the part of it that is at fault.
#[derive(PartialEq, Eq, Debug)]
pub struct ParseError {
    pub kind: ParseErrorKind,
    /// For a missing major number the text of the version; otherwise the
    /// text of the field.
    pub text: String,
}

/// What a parse error holds, with its text as a sequence of characters.
pub struct ParseErrorModel {
    pub kind: ParseErrorKind,
    pub text: Seq<char>,
}

impl View for ParseError {
    type V = ParseErrorModel;

    open spec fn view(&self) -> ParseErrorModel {
        ParseErrorModel { kind: self.kind, text: self.text@ }
    }
}

/// The error of a version without a major number.
pub open spec fn missing_major(version: Seq<char>) -> ParseErrorModel {
    ParseErrorModel { kind: ParseErrorKind::MissingMajor, text: version }
}

/// The error of a field that is no number.
pub open spec fn invalid_number(field: Seq<char>) -> ParseErrorModel {
    ParseErrorModel { kind: ParseErrorKind::InvalidNumber, text: field }
}

/// The error of a `^` or `~` comparator on the largest number.
pub open spec fn malformed_comparator(field: Seq<char>) -> ParseErrorModel {
    ParseErrorModel { kind: ParseErrorKind::MalformedComparator, text: field }
}

/// The sentence that introduces the faulty text in a message.
pub open spec fn message_prefix(kind: ParseErrorKind) -> Seq<char> {
    match kind {
        ParseErrorKind::MissingMajor => "no major version in: "@,
        ParseErrorKind::InvalidNumber => "not a version number: "@,
        ParseErrorKind::MalformedComparator => "version number too large for a range: "@,
    }
}

impl Clone for ParseError {
    fn clone(&self) -> (r: Self)
        ensures
            r == *self,
    {
        ParseError { kind: self.kind, text: self.text.clone() }
    }
}

impl ParseError {
    /// An error of the given kind on the given text.
    pub fn new(kind: ParseErrorKind, text: &str) -> (r: Self)
        ensures
            r@ == (ParseErrorModel { kind, text: text@ }),
    {
        ParseError { kind, text: text.to_owned() }
    }

    /// A line for the user: what is wrong, then the faulty text.
    pub fn message(&self) -> (r: String)
        ensures
            r@ == message_prefix(self.kind) + self.text@,
    {
        let prefix = match self.kind {
            ParseErrorKind::MissingMajor => "no major version in: ",
            ParseErrorKind::InvalidNumber => "not a version number: ",
            ParseErrorKind::MalformedComparator => "version number too large for a range: ",
        };
        String::from_str(prefix).concat(self.text.as_str())
    }
}

} // verus!
