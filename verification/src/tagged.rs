//! [`TaggedSpec`] — a port specification split across TCP and UDP.
//!
//! Many scanners (`nmap -p T:80,U:53`) accept a single spec string that mixes
//! ports for both transports. `TaggedSpec` captures that shape exactly: two
//! independent [`PortSpec`]s, one per [`Proto`].
use vstd::prelude::*;
use vstd::string::StringExecFns;
use vstd::std_specs::iter::IteratorSpec;
use vstd::utf8::{char_is_scalar, encode_scalar, encode_utf8};

use crate::error::{Failure, ParseError};
use crate::proto::{Proto, parse_proto_chars, proto_result};
use crate::range::{find_char, find_char_in};
use crate::cover::port_seq;
use crate::spec::{PortSpec, pairs_cover, spec_result};
use crate::text::{chars_of, push_char, string_from_chars, trim, trim_chars};

verus! {

/// The parts joined with commas.
pub open spec fn join(parts: Seq<Seq<char>>) -> Seq<char>
    decreases parts.len(),
{
    if parts.len() == 0 {
        Seq::empty()
    } else if parts.len() == 1 {
        parts[0]
    } else {
        join(parts.drop_last()) + seq![','] + parts.last()
    }
}

/// What one trimmed chunk of a tagged spec does: a `T:`/`U:`-style prefix
/// (at most four bytes before the first `:` that name a protocol) switches
/// the current protocol; the rest of the chunk, if not blank, becomes a part
/// of that protocol's spec. Returns the new current protocol and the parts
/// added on each side.
pub open spec fn chunk_step(chunk: Seq<char>, cur: Proto) -> (
    Proto,
    Seq<Seq<char>>,
    Seq<Seq<char>>,
) {
    let j = find_char(chunk, ':');
    let prefix = chunk.take(j);
    let switch = 0 <= j < chunk.len() && encode_utf8(prefix).len() <= 4 && proto_result(prefix) is Ok;
    let proto = if switch { proto_result(prefix)->Ok_0 } else { cur };
    let body = if switch { trim(chunk.skip(j + 1)) } else { chunk };
    if body.len() == 0 {
        (proto, Seq::empty(), Seq::empty())
    } else if proto == Proto::Tcp {
        (proto, seq![body], Seq::empty())
    } else {
        (proto, Seq::empty(), seq![body])
    }
}

/// The TCP and UDP parts of a comma-separated tagged spec, starting with
/// `cur` as the current protocol.
pub open spec fn tagged_parts(s: Seq<char>, cur: Proto) -> (Seq<Seq<char>>, Seq<Seq<char>>)
    decreases s.len(),
{
    let k = find_char(s, ',');
    let st = chunk_step(trim(s.take(k)), cur);
    if 0 <= k < s.len() {
        let rest = tagged_parts(s.skip(k + 1), st.0);
        (st.1 + rest.0, st.2 + rest.1)
    } else {
        (st.1, st.2)
    }
}

/// What one side of a tagged spec parses to: nothing for no parts, else the
/// spec formed by joining its parts.
pub open spec fn side_result(parts: Seq<Seq<char>>) -> Result<Seq<(u16, u16)>, Failure> {
    if parts.len() == 0 {
        Ok(Seq::empty())
    } else {
        spec_result(join(parts))
    }
}

/// What parsing a tagged spec gives: the TCP and UDP ranges, or the first
/// error, TCP side first.
pub open spec fn tagged_result(s: Seq<char>) -> Result<
    (Seq<(u16, u16)>, Seq<(u16, u16)>),
    Failure,
> {
    let t = trim(s);
    if t.len() == 0 {
        Err(Failure::Empty)
    } else {
        let parts = tagged_parts(t, Proto::Tcp);
        match side_result(parts.0) {
            Err(e) => Err(e),
            Ok(a) => match side_result(parts.1) {
                Err(e) => Err(e),
                Ok(b) => Ok((a, b)),
            },
        }
    }
}

/// The text of a tagged spec from the texts of its sides (`None` for an
/// empty side): `T:` and the TCP text, then `U:` and the UDP text, joined by a
/// comma when both are present.
pub open spec fn tagged_text(tcp: Option<Seq<char>>, udp: Option<Seq<char>>) -> Seq<char> {
    match (tcp, udp) {
        (Some(a), Some(b)) => seq!['T', ':'] + a + seq![','] + seq!['U', ':'] + b,
        (Some(a), None) => seq!['T', ':'] + a,
        (None, Some(b)) => seq!['U', ':'] + b,
        (None, None) => Seq::empty(),
    }
}

/// The TCP ports tagged `Tcp`, then the UDP ports tagged `Udp`.
pub open spec fn tagged_pairs(tcp: Seq<u16>, udp: Seq<u16>) -> Seq<(Proto, u16)> {
    tcp.map_values(|p: u16| (Proto::Tcp, p)) + udp.map_values(|p: u16| (Proto::Udp, p))
}

/// The text of one side of a tagged spec, `None` when it is empty.
pub open spec fn side_text(p: PortSpec) -> Option<Seq<char>> {
    if p@ == Set::<int>::empty() {
        None
    } else {
        Some(crate::spec::list_text(p.rs()))
    }
}

proof fn lemma_encode_len_skip(s: Seq<char>, i: int)
    requires
        0 <= i <= s.len(),
    ensures
        encode_utf8(s.skip(i)).len() <= encode_utf8(s).len(),
    decreases i,
{
    if i == 0 {
        assert(s.skip(0) =~= s);
    } else {
        lemma_encode_len_skip(s, i - 1);
        assert(s.skip(i - 1).drop_first() =~= s.skip(i));
    }
}

/// Whether the UTF-8 encoding of `cs` takes at most `max` bytes.
fn utf8_fits(cs: &[char], max: usize) -> (b: bool)
    ensures
        b == (encode_utf8(cs@).len() <= max),
{
    let mut i: usize = cs.len();
    let mut total: usize = 0;
    assert(cs@.skip(i as int) =~= Seq::<char>::empty());
    while i > 0
        invariant
            i <= cs@.len(),
            total <= max,
            total == encode_utf8(cs@.skip(i as int)).len(),
        decreases i,
    {
        let c = cs[i - 1];
        let u = c as u32;
        proof {
            char_is_scalar(c);
            assert(cs@.skip(i - 1).drop_first() =~= cs@.skip(i as int));
            assert(cs@.skip(i - 1)[0] == c);
        }
        let w: usize = if u <= 0x7f { 1 } else if u <= 0x7ff { 2 } else if u <= 0xffff { 3 } else { 4 };
        assert(w == encode_scalar(c as u32).len());
        if w > max - total {
            proof {
                lemma_encode_len_skip(cs@, i - 1);
            }
            return false;
        }
        total = total + w;
        i = i - 1;
    }
    assert(cs@.skip(0) =~= cs@);
    true
}

/// Appends a part to the joined text of a side.
fn push_part(text: &mut Vec<char>, has: bool, body: &[char])
    ensures
        final(text)@ == (if has { old(text)@ + seq![','] + body@ } else { old(text)@ + body@ }),
{
    if has {
        text.push(',');
    }
    let ghost base = text@;
    let mut i: usize = 0;
    assert(body@.take(0) =~= Seq::<char>::empty());
    assert(base + Seq::<char>::empty() =~= base);
    while i < body.len()
        invariant
            i <= body@.len(),
            text@ == base + body@.take(i as int),
        decreases body@.len() - i,
    {
        text.push(body[i]);
        assert(body@.take(i + 1) =~= body@.take(i as int).push(body@[i as int]));
        i = i + 1;
    }
    assert(body@.take(i as int) =~= body@);
    assert(has ==> base == old(text)@ + seq![',']);
}

/// The protocol and the body of one trimmed chunk; see [`chunk_step`].
fn chunk_body(chunk: &[char], cur: Proto) -> (r: (Proto, &[char]))
    ensures
        r.0 == chunk_step(chunk@, cur).0,
        chunk_step(chunk@, cur).1 == (if r.1@.len() > 0 && r.0 == Proto::Tcp {
            seq![r.1@]
        } else {
            Seq::empty()
        }),
        chunk_step(chunk@, cur).2 == (if r.1@.len() > 0 && r.0 == Proto::Udp {
            seq![r.1@]
        } else {
            Seq::empty()
        }),
{
    let j = find_char_in(chunk, ':');
    if j < chunk.len() {
        let prefix = &chunk[0..j];
        assert(prefix@ =~= chunk@.take(j as int));
        if utf8_fits(prefix, 4) {
            match parse_proto_chars(prefix) {
                Ok(p) => {
                    let after = &chunk[j + 1..chunk.len()];
                    assert(after@ =~= chunk@.skip(j + 1));
                    return (p, trim_chars(after));
                },
                Err(_) => {},
            }
        }
    }
    (cur, chunk)
}

/// Splits a trimmed tagged spec into the joined texts of its TCP and UDP
/// parts, and whether each side has any part; see [`tagged_parts`].
fn split_tagged(t: &[char]) -> (r: (Vec<char>, bool, Vec<char>, bool))
    ensures
        r.0@ == join(tagged_parts(t@, Proto::Tcp).0),
        r.1 == (tagged_parts(t@, Proto::Tcp).0.len() > 0),
        r.2@ == join(tagged_parts(t@, Proto::Tcp).1),
        r.3 == (tagged_parts(t@, Proto::Tcp).1.len() > 0),
{
    let n = t.len();
    let mut tcp_text: Vec<char> = Vec::new();
    let mut udp_text: Vec<char> = Vec::new();
    let mut has_tcp = false;
    let mut has_udp = false;
    let mut cur = Proto::Tcp;
    let ghost mut tp: Seq<Seq<char>> = Seq::empty();
    let ghost mut up: Seq<Seq<char>> = Seq::empty();
    let mut pos: usize = 0;
    assert(t@.skip(0) =~= t@);
    assert(tp + tagged_parts(t@, Proto::Tcp).0 =~= tagged_parts(t@, Proto::Tcp).0);
    assert(up + tagged_parts(t@, Proto::Tcp).1 =~= tagged_parts(t@, Proto::Tcp).1);
    loop
        invariant
            pos <= n,
            n == t@.len(),
            tagged_parts(t@, Proto::Tcp).0 == tp + tagged_parts(t@.skip(pos as int), cur).0,
            tagged_parts(t@, Proto::Tcp).1 == up + tagged_parts(t@.skip(pos as int), cur).1,
            tcp_text@ == join(tp),
            udp_text@ == join(up),
            has_tcp == (tp.len() > 0),
            has_udp == (up.len() > 0),
        decreases n - pos,
    {
        let rest = &t[pos..n];
        assert(rest@ =~= t@.skip(pos as int));
        let k = find_char_in(rest, ',');
        let chunk = trim_chars(&rest[0..k]);
        assert(rest@.take(k as int) =~= rest@.subrange(0, k as int));
        let ghost step = chunk_step(chunk@, cur);
        let (proto, body) = chunk_body(chunk, cur);
        assert(proto == step.0);
        cur = proto;
        if body.len() > 0 {
            match proto {
                Proto::Tcp => {
                    push_part(&mut tcp_text, has_tcp, body);
                    proof {
                        assert(tp.push(body@).drop_last() =~= tp);
                        tp = tp.push(body@);
                    }
                    has_tcp = true;
                },
                Proto::Udp => {
                    push_part(&mut udp_text, has_udp, body);
                    proof {
                        assert(up.push(body@).drop_last() =~= up);
                        up = up.push(body@);
                    }
                    has_udp = true;
                },
            }
        }
        proof {
            let tp0 = if body@.len() > 0 && proto == Proto::Tcp { tp.drop_last() } else { tp };
            let up0 = if body@.len() > 0 && proto == Proto::Udp { up.drop_last() } else { up };
            assert(tp =~= tp0 + step.1);
            assert(up =~= up0 + step.2);
        }
        if k == rest.len() {
            return (tcp_text, has_tcp, udp_text, has_udp);
        }
        proof {
            assert(rest@.skip(k + 1) =~= t@.skip(pos + k + 1));
            let tl = tagged_parts(rest@.skip(k + 1), cur);
            let tp0 = if body@.len() > 0 && proto == Proto::Tcp { tp.drop_last() } else { tp };
            let up0 = if body@.len() > 0 && proto == Proto::Udp { up.drop_last() } else { up };
            assert(tp0 + (step.1 + tl.0) =~= tp + tl.0);
            assert(up0 + (step.2 + tl.1) =~= up + tl.1);
        }
        pos = pos + k + 1;
    }
}

/// A spec carrying separate TCP and UDP port sets.
///
/// Parses an `nmap`-style spec like `T:80,443,U:53,123` — entries are split
/// across the two transports based on the most recent `T:`/`U:` prefix
/// (`T:` is the implicit default for un-prefixed entries at the front).
#[derive(Debug, PartialEq, Eq)]
pub struct TaggedSpec {
    /// The TCP-side port set.
    pub tcp: PortSpec,
    /// The UDP-side port set.
    pub udp: PortSpec,
}

impl TaggedSpec {
    /// An empty spec covering no ports on either transport.
    pub fn new() -> (r: TaggedSpec)
        ensures
            r.tcp@ == Set::<int>::empty(),
            r.udp@ == Set::<int>::empty(),
    {
        TaggedSpec { tcp: PortSpec::new(), udp: PortSpec::new() }
    }

    /// The [`PortSpec`] associated with a given protocol.
    pub fn for_proto(&self, proto: Proto) -> (r: &PortSpec)
        ensures
            r == (match proto {
                Proto::Tcp => &self.tcp,
                Proto::Udp => &self.udp,
            }),
    {
        match proto {
            Proto::Tcp => &self.tcp,
            Proto::Udp => &self.udp,
        }
    }

    /// `true` if both transports are empty.
    pub fn is_empty(&self) -> (r: bool)
        ensures
            r == (self.tcp@ == Set::<int>::empty() && self.udp@ == Set::<int>::empty()),
    {
        self.tcp.is_empty() && self.udp.is_empty()
    }

    /// The total number of ports across both transports — a `tcp/80` and a
    /// `udp/80` count as two distinct entries.
    pub fn count(&self) -> (r: u32)
        ensures
            r == self.tcp@.len() + self.udp@.len(),
    {
        self.tcp.count() + self.udp.count()
    }

    /// `true` if `port` is in the named protocol's spec.
    pub fn contains(&self, proto: Proto, port: u16) -> (r: bool)
        ensures
            r == (match proto {
                Proto::Tcp => self.tcp@.contains(port as int),
                Proto::Udp => self.udp@.contains(port as int),
            }),
    {
        self.for_proto(proto).contains(port)
    }

    /// Per-protocol union: a port never crosses transports.
    pub fn union(&self, other: &TaggedSpec) -> (r: TaggedSpec)
        ensures
            r.tcp@ == self.tcp@ + other.tcp@,
            r.udp@ == self.udp@ + other.udp@,
    {
        TaggedSpec { tcp: self.tcp.union(&other.tcp), udp: self.udp.union(&other.udp) }
    }

    /// Per-protocol intersection.
    pub fn intersection(&self, other: &TaggedSpec) -> (r: TaggedSpec)
        ensures
            r.tcp@ == self.tcp@.intersect(other.tcp@),
            r.udp@ == self.udp@.intersect(other.udp@),
    {
        TaggedSpec {
            tcp: self.tcp.intersection(&other.tcp),
            udp: self.udp.intersection(&other.udp),
        }
    }

    /// Per-protocol difference.
    pub fn difference(&self, other: &TaggedSpec) -> (r: TaggedSpec)
        ensures
            r.tcp@ == self.tcp@.difference(other.tcp@),
            r.udp@ == self.udp@.difference(other.udp@),
    {
        TaggedSpec {
            tcp: self.tcp.difference(&other.tcp),
            udp: self.udp.difference(&other.udp),
        }
    }

    /// Every `(protocol, port)` pair: the TCP ports ascending, then the UDP
    /// ports ascending.
    pub fn iter(&self) -> (it: std::vec::IntoIter<(Proto, u16)>)
        ensures
            it.remaining() == tagged_pairs(port_seq(self.tcp.rs()), port_seq(self.udp.rs())),
    {
        broadcast use vstd::std_specs::vec::axiom_spec_into_iter;
        let t = self.tcp.ports();
        let u = self.udp.ports();
        let mut out: Vec<(Proto, u16)> = Vec::new();
        let mut i: usize = 0;
        while i < t.len()
            invariant
                i <= t@.len(),
                out@ == t@.take(i as int).map_values(|p: u16| (Proto::Tcp, p)),
            decreases t@.len() - i,
        {
            out.push((Proto::Tcp, t[i]));
            assert(t@.take(i + 1).map_values(|p: u16| (Proto::Tcp, p)) =~= t@.take(i as int).map_values(|p: u16| (Proto::Tcp, p)).push((Proto::Tcp, t@[i as int])));
            i = i + 1;
        }
        assert(t@.take(i as int) =~= t@);
        let ghost base = out@;
        let mut j: usize = 0;
        while j < u.len()
            invariant
                j <= u@.len(),
                out@ == base + u@.take(j as int).map_values(|p: u16| (Proto::Udp, p)),
            decreases u@.len() - j,
        {
            out.push((Proto::Udp, u[j]));
            assert(u@.take(j + 1).map_values(|p: u16| (Proto::Udp, p)) =~= u@.take(j as int).map_values(|p: u16| (Proto::Udp, p)).push((Proto::Udp, u@[j as int])));
            j = j + 1;
        }
        assert(u@.take(j as int) =~= u@);
        out.into_iter()
    }

    /// The text of the spec, as its `Display` form prints it, e.g.
    /// `T:22,80,U:53`.
    pub fn to_string(&self) -> (r: String)
        ensures
            r@ == tagged_text(side_text(self.tcp), side_text(self.udp)),
    {
        let mut r = String::new();
        let mut wrote = false;
        if !self.tcp.is_empty() {
            push_char(&mut r, 'T');
            push_char(&mut r, ':');
            let t = self.tcp.to_string();
            r.append(t.as_str());
            wrote = true;
        }
        if !self.udp.is_empty() {
            if wrote {
                push_char(&mut r, ',');
            }
            push_char(&mut r, 'U');
            push_char(&mut r, ':');
            let u = self.udp.to_string();
            r.append(u.as_str());
        }
        r
    }

    /// Parses an `nmap`-style tagged spec such as `T:22,80,U:53,123`.
    pub fn parse(s: &str) -> (r: Result<TaggedSpec, ParseError>)
        ensures
            r is Ok <==> tagged_result(s@) is Ok,
            r matches Ok(x) ==> x.tcp@ == pairs_cover(tagged_result(s@)->Ok_0.0) && x.udp@
                == pairs_cover(tagged_result(s@)->Ok_0.1),
            r matches Err(e) ==> tagged_result(s@) == Err::<
                (Seq<(u16, u16)>, Seq<(u16, u16)>),
                Failure,
            >(e@),
    {
        let cs = chars_of(s);
        let t = trim_chars(cs.as_slice());
        if t.len() == 0 {
            return Err(ParseError::Empty);
        }
        let (tcp_text, has_tcp, udp_text, has_udp) = split_tagged(t);
        let tcp = if has_tcp {
            let text = string_from_chars(tcp_text.as_slice());
            PortSpec::parse(text.as_str())?
        } else {
            PortSpec::new()
        };
        let udp = if has_udp {
            let text = string_from_chars(udp_text.as_slice());
            PortSpec::parse(text.as_str())?
        } else {
            PortSpec::new()
        };
        proof {
            assert(pairs_cover(Seq::<(u16, u16)>::empty()) =~= Set::<int>::empty());
        }
        Ok(TaggedSpec { tcp, udp })
    }
}

impl Clone for TaggedSpec {
    fn clone(&self) -> (r: TaggedSpec)
        ensures
            r.tcp.rs() == self.tcp.rs(),
            r.udp.rs() == self.udp.rs(),
    {
        TaggedSpec { tcp: self.tcp.clone(), udp: self.udp.clone() }
    }
}

impl Default for TaggedSpec {
    fn default() -> (r: TaggedSpec)
        ensures
            r.tcp@ == Set::<int>::empty(),
            r.udp@ == Set::<int>::empty(),
    {
        TaggedSpec::new()
    }
}

impl std::str::FromStr for TaggedSpec {
    type Err = ParseError;

    fn from_str(s: &str) -> (r: Result<TaggedSpec, ParseError>)
        ensures
            r is Ok <==> tagged_result(s@) is Ok,
            r matches Ok(x) ==> x.tcp@ == pairs_cover(tagged_result(s@)->Ok_0.0) && x.udp@
                == pairs_cover(tagged_result(s@)->Ok_0.1),
            r matches Err(e) ==> tagged_result(s@) == Err::<
                (Seq<(u16, u16)>, Seq<(u16, u16)>),
                Failure,
            >(e@),
    {
        TaggedSpec::parse(s)
    }
}

} // verus!
