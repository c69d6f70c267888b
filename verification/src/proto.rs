//! [`Proto`] — the transport-layer protocol a port spec is scoped to.
use vstd::prelude::*;
use vstd::string::StrSliceExecFns;

use crate::error::{Failure, ParseError};
use crate::text::{chars_of, string_from_chars, trim, trim_chars};

verus! {

/// A transport-layer protocol — TCP or UDP.
///
/// Lets callers distinguish between a service that listens on `tcp/53` (DNS
/// zone transfers) versus `udp/53` (regular DNS queries), without having two
/// separate types for what is otherwise the same port arithmetic.
#[derive(Debug, Clone, Copy, PartialEq, Eq, Structural, Hash)]
pub enum Proto {
    /// TCP — connection-oriented stream transport (RFC 9293).
    Tcp,
    /// UDP — datagram transport (RFC 768).
    Udp,
}

/// The canonical lower-case label of a protocol.
pub open spec fn proto_label(p: Proto) -> Seq<char> {
    match p {
        Proto::Tcp => "tcp"@,
        Proto::Udp => "udp"@,
    }
}

/// What parsing a protocol name gives: the names are `tcp`, `TCP`, `Tcp`,
/// `t`, `T` and their `udp` counterparts, after trimming whitespace.
pub open spec fn proto_result(s: Seq<char>) -> Result<Proto, Failure> {
    let t = trim(s);
    if t == "tcp"@ || t == "TCP"@ || t == "Tcp"@ || t == "t"@ || t == "T"@ {
        Ok(Proto::Tcp)
    } else if t == "udp"@ || t == "UDP"@ || t == "Udp"@ || t == "u"@ || t == "U"@ {
        Ok(Proto::Udp)
    } else {
        Err(Failure::Malformed(t))
    }
}

/// Whether the characters `t` spell the string `lit`.
pub fn chars_eq_str(t: &[char], lit: &str) -> (b: bool)
    ensures
        b == (t@ == lit@),
{
    let n = lit.unicode_len();
    if t.len() != n {
        return false;
    }
    let mut i: usize = 0;
    while i < n
        invariant
            i <= n,
            n == t@.len(),
            n == lit@.len(),
            forall|j: int| 0 <= j < i ==> t@[j] == lit@[j],
        decreases n - i,
    {
        if t[i] != lit.get_char(i) {
            return false;
        }
        i = i + 1;
    }
    assert(t@ =~= lit@);
    true
}

/// Parses a protocol name from its characters; see [`proto_result`].
pub fn parse_proto_chars(s: &[char]) -> (r: Result<Proto, ParseError>)
    ensures
        r is Ok <==> proto_result(s@) is Ok,
        r matches Ok(p) ==> proto_result(s@) == Ok::<Proto, Failure>(p),
        r matches Err(e) ==> proto_result(s@) == Err::<Proto, Failure>(e@),
{
    let t = trim_chars(s);
    if chars_eq_str(t, "tcp") || chars_eq_str(t, "TCP") || chars_eq_str(t, "Tcp")
        || chars_eq_str(t, "t") || chars_eq_str(t, "T") {
        Ok(Proto::Tcp)
    } else if chars_eq_str(t, "udp") || chars_eq_str(t, "UDP") || chars_eq_str(t, "Udp")
        || chars_eq_str(t, "u") || chars_eq_str(t, "U") {
        Ok(Proto::Udp)
    } else {
        Err(ParseError::Malformed(string_from_chars(t)))
    }
}

impl Proto {
    /// The canonical lower-case label (`"tcp"` / `"udp"`).
    pub fn as_str(self) -> (r: &'static str)
        ensures
            r@ == proto_label(self),
    {
        match self {
            Proto::Tcp => "tcp",
            Proto::Udp => "udp",
        }
    }

    /// The single-letter shorthand (`'T'` for TCP, `'U'` for UDP) used by
    /// `nmap`-style spec strings like `T:80,U:53`.
    pub fn letter(self) -> (c: char)
        ensures
            c == (match self {
                Proto::Tcp => 'T',
                Proto::Udp => 'U',
            }),
    {
        match self {
            Proto::Tcp => 'T',
            Proto::Udp => 'U',
        }
    }

    /// The label as an owned string, as the `Display` form prints it.
    pub fn to_string(self) -> (r: String)
        ensures
            r@ == proto_label(self),
    {
        self.as_str().to_owned()
    }

    /// Parses `tcp`/`udp` and their case and single-letter variants,
    /// ignoring surrounding whitespace.
    pub fn parse(s: &str) -> (r: Result<Proto, ParseError>)
        ensures
            r is Ok <==> proto_result(s@) is Ok,
            r matches Ok(p) ==> proto_result(s@) == Ok::<Proto, Failure>(p),
            r matches Err(e) ==> proto_result(s@) == Err::<Proto, Failure>(e@),
    {
        let cs = chars_of(s);
        parse_proto_chars(cs.as_slice())
    }
}

impl std::str::FromStr for Proto {
    type Err = ParseError;

    fn from_str(s: &str) -> (r: Result<Proto, ParseError>)
        ensures
            r is Ok <==> proto_result(s@) is Ok,
            r matches Ok(p) ==> proto_result(s@) == Ok::<Proto, Failure>(p),
            r matches Err(e) ==> proto_result(s@) == Err::<Proto, Failure>(e@),
    {
        Proto::parse(s)
    }
}

} // verus!
