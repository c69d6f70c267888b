//! The error type of the parsers, and its plain-value model.
use vstd::prelude::*;
use vstd::string::StringExecFns;

verus! {

/// An error produced while parsing a port, range, or specification.
#[derive(Debug, Clone, PartialEq, Eq)]
#[non_exhaustive]
pub enum ParseError {
    /// The input was empty or contained only whitespace.
    Empty,
    /// A port number was missing, non-numeric, or out of the 0..=65535 range.
    BadPort(String),
    /// A range's start port sorts after its end port.
    StartAfterEnd,
    /// The input did not look like a port or range, or had stray parts.
    Malformed(String),
}

/// A parse error with its text as a character sequence.
pub enum Failure {
    Empty,
    BadPort(Seq<char>),
    StartAfterEnd,
    Malformed(Seq<char>),
}

impl View for ParseError {
    type V = Failure;

    open spec fn view(&self) -> Failure {
        match self {
            ParseError::Empty => Failure::Empty,
            ParseError::BadPort(s) => Failure::BadPort(s@),
            ParseError::StartAfterEnd => Failure::StartAfterEnd,
            ParseError::Malformed(s) => Failure::Malformed(s@),
        }
    }
}

/// What `format!("{:?}", s)` gives for a string: the text quoted and escaped.
pub uninterp spec fn debug_text(s: Seq<char>) -> Seq<char>;

/// Formats a string with `<str as Debug>::fmt`. The result is named by
/// `debug_text`; its escaping rules are std's and are not restated here.
#[verifier::external_body]
pub(crate) fn debug_quoted(s: &String) -> (r: String)
    ensures
        r@ == debug_text(s@),
{
    format!("{:?}", s)
}

/// The human-readable message for a parse error.
pub open spec fn message(e: Failure) -> Seq<char> {
    match e {
        Failure::Empty => "empty input"@,
        Failure::BadPort(s) => "invalid port number: "@ + debug_text(s),
        Failure::StartAfterEnd => "range start is greater than range end"@,
        Failure::Malformed(s) => "malformed input: "@ + debug_text(s),
    }
}

impl ParseError {
    /// The error message, as its `Display` form would print it.
    pub fn to_string(&self) -> (r: String)
        ensures
            r@ == message(self@),
    {
        match self {
            ParseError::Empty => "empty input".to_owned(),
            ParseError::BadPort(s) => {
                let mut r = "invalid port number: ".to_owned();
                let q = debug_quoted(s);
                r.append(q.as_str());
                r
            },
            ParseError::StartAfterEnd => "range start is greater than range end".to_owned(),
            ParseError::Malformed(s) => {
                let mut r = "malformed input: ".to_owned();
                let q = debug_quoted(s);
                r.append(q.as_str());
                r
            },
        }
    }
}

} // verus!
