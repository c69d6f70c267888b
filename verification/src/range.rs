//! A single inclusive range of port numbers.
use vstd::prelude::*;
use vstd::set_lib::{lemma_int_range, set_int_range};
use vstd::math::{max, min};

use crate::error::{Failure, ParseError};
use crate::text::{chars_of, dec, parse_u16, parse_u16_chars, push_char, push_dec, string_from_chars, trim, trim_chars};

verus! {

/// The ports `lo..=hi`.
pub open spec fn span(lo: int, hi: int) -> Set<int> {
    Set::new(|p: int| lo <= p <= hi)
}

/// An inclusive range of TCP/UDP port numbers, `start..=end`.
///
/// Both endpoints are valid 16-bit port numbers (`0..=65535`); the range is
/// always non-empty since it is inclusive.
#[derive(Debug, Clone, Copy, PartialEq, Eq, Structural, Hash, PartialOrd, Ord)]
pub struct PortRange {
    // Field order matters for the derived ordering: by start, then end.
    start: u16,
    end: u16,
}

impl View for PortRange {
    type V = Set<int>;

    open spec fn view(&self) -> Set<int> {
        span(self.lo() as int, self.hi() as int)
    }
}

/// Where the first `c` stands in `s`, or `s.len()` if nowhere.
pub open spec fn find_char(s: Seq<char>, c: char) -> int
    decreases s.len(),
{
    if s.len() == 0 {
        0
    } else if s[0] == c {
        0
    } else {
        1 + find_char(s.drop_first(), c)
    }
}

/// What parsing one port number gives: the number of `trim(s)`, or a
/// `BadPort` error that quotes `s` as it was given.
pub open spec fn port_result(s: Seq<char>) -> Result<u16, Failure> {
    match parse_u16(trim(s)) {
        Some(p) => Ok(p),
        None => Err(Failure::BadPort(s)),
    }
}

/// What parsing `N`, `N-M`, `N-`, `-M` or `-` gives: the endpoints, or the
/// first error met.
pub open spec fn range_result(s: Seq<char>) -> Result<(u16, u16), Failure> {
    let t = trim(s);
    let k = find_char(t, '-');
    if t.len() == 0 {
        Err(Failure::Empty)
    } else if k == t.len() {
        match port_result(t) {
            Ok(p) => Ok((p, p)),
            Err(e) => Err(e),
        }
    } else {
        let lo = t.take(k);
        let hi = t.skip(k + 1);
        let start = if trim(lo).len() == 0 { Ok(0u16) } else { port_result(lo) };
        let end = if trim(hi).len() == 0 { Ok(65535u16) } else { port_result(hi) };
        match start {
            Err(e) => Err(e),
            Ok(a) => match end {
                Err(e) => Err(e),
                Ok(b) => if a > b { Err(Failure::StartAfterEnd) } else { Ok((a, b)) },
            },
        }
    }
}

/// The text of a range: `N` for a single port, else `N-M`.
pub open spec fn range_text(lo: u16, hi: u16) -> Seq<char> {
    if lo == hi {
        dec(lo as nat)
    } else {
        dec(lo as nat) + seq!['-'] + dec(hi as nat)
    }
}

impl PortRange {
    /// The first port.
    pub closed spec fn lo(self) -> u16 {
        self.start
    }

    /// The last port.
    pub closed spec fn hi(self) -> u16 {
        self.end
    }

    #[verifier::type_invariant]
    pub open spec fn wf(self) -> bool {
        self.lo() <= self.hi()
    }

    /// Two ranges with the same endpoints are the same range.
    pub proof fn lemma_ext(a: PortRange, b: PortRange)
        requires
            a.lo() == b.lo(),
            a.hi() == b.hi(),
        ensures
            a == b,
    {
    }

    /// Build a range from its inclusive endpoints.
    ///
    /// # Errors
    ///
    /// Returns [`ParseError::StartAfterEnd`] if `start > end`.
    pub fn new(start: u16, end: u16) -> (r: Result<PortRange, ParseError>)
        ensures
            start <= end <==> r is Ok,
            r matches Ok(x) ==> x.lo() == start && x.hi() == end,
            r matches Err(e) ==> e == ParseError::StartAfterEnd,
    {
        if start > end {
            return Err(ParseError::StartAfterEnd);
        }
        Ok(PortRange { start, end })
    }

    /// The range `lo..=hi`, for callers that already know `lo <= hi`.
    pub(crate) fn between(lo: u16, hi: u16) -> (r: PortRange)
        requires
            lo <= hi,
        ensures
            r.lo() == lo,
            r.hi() == hi,
    {
        PortRange { start: lo, end: hi }
    }

    /// A range covering a single port.
    pub fn single(port: u16) -> (r: PortRange)
        ensures
            r.lo() == port,
            r.hi() == port,
    {
        PortRange { start: port, end: port }
    }

    /// The full port space, `0..=65535`.
    pub fn full() -> (r: PortRange)
        ensures
            r.lo() == 0,
            r.hi() == 65535,
    {
        PortRange { start: 0, end: 65535 }
    }

    /// The IANA well-known ports, `0..=1023`.
    pub fn well_known() -> (r: PortRange)
        ensures
            r.lo() == 0,
            r.hi() == 1023,
    {
        PortRange { start: 0, end: 1023 }
    }

    /// The IANA registered ports, `1024..=49151`.
    pub fn registered() -> (r: PortRange)
        ensures
            r.lo() == 1024,
            r.hi() == 49151,
    {
        PortRange { start: 1024, end: 49151 }
    }

    /// The IANA dynamic (private) ports, `49152..=65535`.
    pub fn dynamic() -> (r: PortRange)
        ensures
            r.lo() == 49152,
            r.hi() == 65535,
    {
        PortRange { start: 49152, end: 65535 }
    }

    /// The first (lowest) port in the range.
    pub fn start(&self) -> (r: u16)
        ensures
            r == self.lo(),
    {
        self.start
    }

    /// The last (highest) port in the range.
    pub fn end(&self) -> (r: u16)
        ensures
            r == self.hi(),
    {
        self.end
    }

    /// The number of ports in the range.
    pub fn count(&self) -> (r: u32)
        ensures
            r == self.hi() - self.lo() + 1,
            self@.finite(),
            r == self@.len(),
    {
        proof {
            use_type_invariant(self);
            lemma_int_range(self.lo() as int, self.hi() + 1);
            assert(self@ =~= set_int_range(self.lo() as int, self.hi() + 1));
        }
        (self.end as u32) - (self.start as u32) + 1
    }

    /// Returns `true` if `port` falls within the range, inclusive.
    pub fn contains(&self, port: u16) -> (r: bool)
        ensures
            r == self@.contains(port as int),
    {
        self.start <= port && port <= self.end
    }

    /// Returns `true` if the two ranges share at least one port.
    pub fn overlaps(&self, other: &PortRange) -> (r: bool)
        ensures
            r == (self.lo() <= other.hi() && other.lo() <= self.hi()),
            r == !self@.disjoint(other@),
    {
        proof {
            use_type_invariant(self);
            use_type_invariant(other);
            let p = if self.lo() <= other.lo() { other.lo() as int } else { self.lo() as int };
            if self.lo() <= other.hi() && other.lo() <= self.hi() {
                assert(self@.contains(p) && other@.contains(p));
            }
        }
        self.start <= other.end && other.start <= self.end
    }

    /// Returns `true` if `other` is entirely within this range.
    pub fn contains_range(&self, other: &PortRange) -> (r: bool)
        ensures
            r == (self.lo() <= other.lo() && other.hi() <= self.hi()),
            r == other@.subset_of(self@),
    {
        proof {
            use_type_invariant(other);
            assert(other@.contains(other.lo() as int));
            assert(other@.contains(other.hi() as int));
        }
        self.start <= other.start && other.end <= self.end
    }

    /// Returns `true` if the two ranges touch or overlap and can therefore be
    /// combined into one contiguous range.
    pub fn is_mergeable(&self, other: &PortRange) -> (r: bool)
        ensures
            r == (if self.lo() <= other.lo() {
                other.lo() <= self.hi() + 1
            } else {
                self.lo() <= other.hi() + 1
            }),
            r == (self@ + other@ == span(
                min(self.lo() as int, other.lo() as int),
                max(self.hi() as int, other.hi() as int),
            )),
    {
        proof {
            use_type_invariant(self);
            use_type_invariant(other);
            let u = self@ + other@;
            let full = span(
                min(self.lo() as int, other.lo() as int),
                max(self.hi() as int, other.hi() as int),
            );
            let (l, h) = if self.lo() <= other.lo() { (*self, *other) } else { (*other, *self) };
            if h.lo() <= l.hi() + 1 {
                assert(u =~= full);
            } else {
                let gap = l.hi() + 1;
                assert(full.contains(gap));
                assert(!u.contains(gap));
            }
        }
        // Overlapping, or directly adjacent (e.g. 1-10 and 11-20).
        let lo = if self.start <= other.start { self } else { other };
        let hi = if self.start <= other.start { other } else { self };
        // hi.start <= lo.end + 1, guarding the u16 overflow at 65535.
        (hi.start as u32) <= (lo.end as u32) + 1
    }

    /// Merge two touching or overlapping ranges into one, or `None` if they are
    /// disjoint with a gap between them.
    pub fn merge(&self, other: &PortRange) -> (r: Option<PortRange>)
        ensures
            r is Some <==> (if self.lo() <= other.lo() {
                other.lo() <= self.hi() + 1
            } else {
                self.lo() <= other.hi() + 1
            }),
            r is Some <==> self@ + other@ == span(
                min(self.lo() as int, other.lo() as int),
                max(self.hi() as int, other.hi() as int),
            ),
            r matches Some(m) ==> m.lo() == min(self.lo() as int, other.lo() as int) && m.hi()
                == max(self.hi() as int, other.hi() as int) && m@ == self@ + other@,
    {
        proof {
            use_type_invariant(self);
            use_type_invariant(other);
        }
        if self.is_mergeable(other) {
            let start = if self.start <= other.start { self.start } else { other.start };
            let end = if self.end >= other.end { self.end } else { other.end };
            Some(PortRange { start, end })
        } else {
            None
        }
    }

    /// The ports in both ranges, or `None` if they share none.
    pub fn intersection(&self, other: &PortRange) -> (r: Option<PortRange>)
        ensures
            r is Some <==> !self@.disjoint(other@),
            r matches Some(m) ==> m.lo() == max(self.lo() as int, other.lo() as int) && m.hi()
                == min(self.hi() as int, other.hi() as int) && m@ == self@.intersect(other@),
    {
        if self.overlaps(other) {
            let start = if self.start >= other.start { self.start } else { other.start };
            let end = if self.end <= other.end { self.end } else { other.end };
            let m = PortRange { start, end };
            assert(m@ =~= self@.intersect(other@));
            Some(m)
        } else {
            None
        }
    }

    /// Iterate over every port in the range, lowest to highest.
    pub fn iter(&self) -> (it: PortRangeIter)
        ensures
            it.rest() == ports_between(self.lo() as int, self.hi() as int),
    {
        proof {
            use_type_invariant(self);
        }
        let it = PortRangeIter { front: self.start as u32, back: self.end as u32, done: false };
        assert(it.rest() =~= ports_between(self.lo() as int, self.hi() as int));
        it
    }

    /// The text of the range, as its `Display` form prints it: `N` or `N-M`.
    pub fn to_string(&self) -> (r: String)
        ensures
            r@ == range_text(self.lo(), self.hi()),
    {
        let mut r = String::new();
        self.write_to(&mut r);
        r
    }

    /// Appends the text of the range.
    pub(crate) fn write_to(&self, s: &mut String)
        ensures
            final(s)@ == old(s)@ + range_text(self.lo(), self.hi()),
    {
        push_dec(s, self.start as u32);
        if self.start != self.end {
            push_char(s, '-');
            push_dec(s, self.end as u32);
        }
    }

    /// Parse `N`, `N-M`, `N-` (to 65535), `-M` (from 0), or `-` (the full
    /// range). Whitespace around the whole and around each endpoint is ignored.
    pub fn parse(s: &str) -> (r: Result<PortRange, ParseError>)
        ensures
            r is Ok <==> range_result(s@) is Ok,
            r matches Ok(x) ==> range_result(s@) == Ok::<(u16, u16), Failure>((x.lo(), x.hi())),
            r matches Err(e) ==> range_result(s@) == Err::<(u16, u16), Failure>(e@),
    {
        let cs = chars_of(s);
        parse_range_chars(cs.as_slice())
    }
}

impl std::str::FromStr for PortRange {
    type Err = ParseError;

    fn from_str(s: &str) -> (r: Result<PortRange, ParseError>)
        ensures
            r is Ok <==> range_result(s@) is Ok,
            r matches Ok(x) ==> range_result(s@) == Ok::<(u16, u16), Failure>((x.lo(), x.hi())),
            r matches Err(e) ==> range_result(s@) == Err::<(u16, u16), Failure>(e@),
    {
        PortRange::parse(s)
    }
}

impl IntoIterator for PortRange {
    type Item = u16;
    type IntoIter = PortRangeIter;

    fn into_iter(self) -> (it: PortRangeIter)
        ensures
            it.rest() == ports_between(self.lo() as int, self.hi() as int),
    {
        self.iter()
    }
}

/// The ports `lo..=hi` in ascending order.
pub open spec fn ports_between(lo: int, hi: int) -> Seq<u16> {
    Seq::new((hi - lo + 1) as nat, |i: int| (lo + i) as u16)
}

/// Where the first `c` stands in `s`, or `s.len()` if nowhere.
pub fn find_char_in(s: &[char], c: char) -> (k: usize)
    ensures
        k == find_char(s@, c),
        k <= s@.len(),
{
    let mut i: usize = 0;
    assert(s@.skip(0) =~= s@);
    while i < s.len() && s[i] != c
        invariant
            i <= s@.len(),
            find_char(s@, c) == i + find_char(s@.skip(i as int), c),
        decreases s@.len() - i,
    {
        assert(s@.skip(i as int).drop_first() =~= s@.skip(i + 1));
        i = i + 1;
    }
    i
}

/// Parses one port number, quoting `s` unchanged in a `BadPort` error.
pub fn parse_port(s: &[char]) -> (r: Result<u16, ParseError>)
    ensures
        r is Ok <==> port_result(s@) is Ok,
        r matches Ok(p) ==> port_result(s@) == Ok::<u16, Failure>(p),
        r matches Err(e) ==> port_result(s@) == Err::<u16, Failure>(e@),
{
    let t = trim_chars(s);
    match parse_u16_chars(t) {
        Some(p) => Ok(p),
        None => Err(ParseError::BadPort(string_from_chars(s))),
    }
}

/// Parses a range from its characters; see [`range_result`].
pub fn parse_range_chars(s: &[char]) -> (r: Result<PortRange, ParseError>)
    ensures
        r is Ok <==> range_result(s@) is Ok,
        r matches Ok(x) ==> range_result(s@) == Ok::<(u16, u16), Failure>((x.lo(), x.hi())),
        r matches Err(e) ==> range_result(s@) == Err::<(u16, u16), Failure>(e@),
{
    let t = trim_chars(s);
    if t.len() == 0 {
        return Err(ParseError::Empty);
    }
    let k = find_char_in(t, '-');
    if k == t.len() {
        let p = parse_port(t)?;
        return Ok(PortRange::single(p));
    }
    let lo = &t[0..k];
    let hi = &t[k + 1..t.len()];
    assert(lo@ =~= t@.take(k as int));
    assert(hi@ =~= t@.skip(k + 1));
    let start = if trim_chars(lo).len() == 0 {
        0
    } else {
        parse_port(lo)?
    };
    let end = if trim_chars(hi).len() == 0 {
        65535
    } else {
        parse_port(hi)?
    };
    PortRange::new(start, end)
}

/// Iterator over the ports of a [`PortRange`], lowest to highest.
///
/// Backed by a `u32` cursor so the inclusive end at `65535` is handled without
/// overflow. Implements [`DoubleEndedIterator`].
#[derive(Debug)]
pub struct PortRangeIter {
    front: u32,
    back: u32,
    done: bool,
}

impl Clone for PortRangeIter {
    fn clone(&self) -> (r: Self)
        ensures
            r == *self,
    {
        proof {
            use_type_invariant(self);
        }
        PortRangeIter { front: self.front, back: self.back, done: self.done }
    }
}

impl PortRangeIter {
    #[verifier::type_invariant]
    closed spec fn inv(self) -> bool {
        self.front <= self.back <= 65535
    }

    /// The ports this iterator has yet to yield, in order.
    pub closed spec fn rest(self) -> Seq<u16> {
        if self.done {
            Seq::empty()
        } else {
            ports_between(self.front as int, self.back as int)
        }
    }
}

impl Iterator for PortRangeIter {
    type Item = u16;

    fn next(&mut self) -> (r: Option<u16>) {
        proof {
            use_type_invariant(&*self);
        }
        if self.done {
            return None;
        }
        let cur = self.front;
        if cur == self.back {
            self.done = true;
        } else {
            self.front = cur + 1;
        }
        proof {
            assert(self.rest() =~= old(self).rest().drop_first());
        }
        Some(cur as u16)
    }

    fn size_hint(&self) -> (r: (usize, Option<usize>))
        ensures
            r.0 == self.rest().len(),
            r.1 == Some(r.0),
    {
        proof {
            use_type_invariant(self);
        }
        if self.done {
            return (0, Some(0));
        }
        let n = (self.back - self.front + 1) as usize;
        (n, Some(n))
    }
}

impl DoubleEndedIterator for PortRangeIter {
    fn next_back(&mut self) -> (r: Option<u16>) {
        proof {
            use_type_invariant(&*self);
        }
        if self.done {
            return None;
        }
        let cur = self.back;
        if cur == self.front {
            self.done = true;
        } else {
            self.back = cur - 1;
        }
        proof {
            assert(self.rest() =~= old(self).rest().drop_last());
        }
        Some(cur as u16)
    }
}

impl ExactSizeIterator for PortRangeIter {

}

impl vstd::std_specs::iter::IteratorSpecImpl for PortRangeIter {
    open spec fn obeys_prophetic_iter_laws(&self) -> bool {
        true
    }

    open spec fn remaining(&self) -> Seq<u16> {
        self.rest()
    }

    open spec fn will_return_none(&self) -> bool {
        true
    }

    open spec fn decrease(&self) -> Option<nat> {
        Some(self.rest().len())
    }

    open spec fn initial_value_relation(&self, init: &Self) -> bool {
        *init == *self
    }

    open spec fn peek(&self, index: int) -> Option<u16> {
        if 0 <= index < self.rest().len() {
            Some(self.rest()[index])
        } else {
            None
        }
    }
}

impl vstd::std_specs::iter::DoubleEndedIteratorSpecImpl for PortRangeIter {
    open spec fn peek_back(&self, index: int) -> Option<u16> {
        if 0 <= index < self.rest().len() {
            Some(self.rest()[self.rest().len() - 1 - index])
        } else {
            None
        }
    }
}

} // verus!
