//! [`PortSpec`] — a normalized set of port ranges parsed from a spec string.
use vstd::prelude::*;

use crate::cover::{
    all_ports, cover, holds, lemma_canonical, lemma_cover_empty, lemma_cover_len,
    lemma_cover_push, lemma_cover_single, lemma_cover_take, lemma_normalized_push,
    lemma_normalized_take, normalized, port_seq, sum_counts,
};
use crate::error::{Failure, ParseError};
use crate::range::{
    PortRange, find_char, find_char_in, parse_range_chars, ports_between, range_result, range_text,
    span,
};
use crate::services::{name_from, port_for_chars, port_from, service_for};
use crate::text::{chars_of, push_char, trim, trim_chars};
use vstd::std_specs::iter::IteratorSpec;

verus! {

/// A set of ports described by a specification string such as
/// `"22,80,443,1000-2000"`.
///
/// The internal ranges are always kept **normalized**: sorted by start and
/// merged so that no two ranges overlap or touch. Equal specs therefore compare
/// equal regardless of how they were written (`"80,80,80"` == `"80"`).
#[derive(Debug, PartialEq, Eq, Hash)]
pub struct PortSpec {
    ranges: Vec<PortRange>,
}

impl View for PortSpec {
    type V = Set<int>;

    open spec fn view(&self) -> Set<int> {
        cover(self.rs())
    }
}

/// A copy of a list of ranges.
fn copy_ranges(v: &[PortRange]) -> (r: Vec<PortRange>)
    ensures
        r@ == v@,
{
    let mut r: Vec<PortRange> = Vec::new();
    let mut i: usize = 0;
    while i < v.len()
        invariant
            i <= v@.len(),
            r@ == v@.take(i as int),
        decreases v@.len() - i,
    {
        r.push(v[i]);
        assert(v@.take(i + 1) =~= v@.take(i as int).push(v@[i as int]));
        i = i + 1;
    }
    assert(v@.take(i as int) =~= v@);
    r
}

/// Adds one range to a normalized list, merging it with every range it
/// overlaps or touches.
fn insert_sorted(rs: &Vec<PortRange>, r: PortRange) -> (out: Vec<PortRange>)
    requires
        normalized(rs@),
        r.wf(),
    ensures
        normalized(out@),
        cover(out@) == cover(rs@) + r@,
{
    let mut out: Vec<PortRange> = Vec::new();
    let mut cur = r;
    let mut placed = false;
    let mut i: usize = 0;
    proof {
        lemma_cover_empty();
        assert(rs@.take(0) =~= Seq::<PortRange>::empty());
        assert(out@ =~= Seq::<PortRange>::empty());
    }
    while i < rs.len()
        invariant
            i <= rs@.len(),
            normalized(rs@),
            normalized(out@),
            cur.wf(),
            placed ==> cover(out@) == cover(rs@.take(i as int)) + r@,
            !placed ==> cover(out@) + cur@ == cover(rs@.take(i as int)) + r@,
            !placed ==> forall|k: int| 0 <= k < out@.len() ==> #[trigger] out@[k].hi() + 1 < cur.lo(),
            forall|k: int, j: int|
                0 <= k < out@.len() && i <= j < rs@.len() ==> #[trigger] out@[k].hi() + 1
                    < #[trigger] rs@[j].lo(),
        decreases rs@.len() - i,
    {
        let x = rs[i];
        proof {
            assert(x.wf());
            lemma_cover_take(rs@, i as int);
        }
        if placed {
            proof {
                lemma_normalized_push(out@, x);
                lemma_cover_push(out@, x);
            }
            out.push(x);
        } else if x.end() as u32 + 1 < cur.start() as u32 {
            proof {
                lemma_normalized_push(out@, x);
                lemma_cover_push(out@, x);
                assert(cover(out@.push(x)) + cur@ =~= cover(out@) + cur@ + x@);
            }
            out.push(x);
        } else if cur.end() as u32 + 1 < x.start() as u32 {
            proof {
                lemma_normalized_push(out@, cur);
                lemma_cover_push(out@, cur);
                lemma_normalized_push(out@.push(cur), x);
                lemma_cover_push(out@.push(cur), x);
            }
            out.push(cur);
            out.push(x);
            placed = true;
        } else {
            match cur.merge(&x) {
                Some(m) => {
                    proof {
                        assert(cover(out@) + m@ =~= cover(out@) + cur@ + x@);
                    }
                    cur = m;
                },
                None => {
                    proof {
                        assert(false);
                    }
                },
            }
        }
        proof {
            assert forall|k: int, j: int|
                0 <= k < out@.len() && i + 1 <= j < rs@.len() implies #[trigger] out@[k].hi() + 1
                < #[trigger] rs@[j].lo() by {
                assert(rs@[i as int].hi() + 1 < rs@[j].lo());
                assert(rs@[i as int].wf());
            }
        }
        i = i + 1;
    }
    assert(rs@.take(i as int) =~= rs@);
    if !placed {
        proof {
            lemma_normalized_push(out@, cur);
            lemma_cover_push(out@, cur);
        }
        out.push(cur);
    }
    out
}

/// The normal form of any list of ranges.
fn normalize_vec(v: &[PortRange]) -> (out: Vec<PortRange>)
    ensures
        normalized(out@),
        cover(out@) == cover(v@),
{
    let mut out: Vec<PortRange> = Vec::new();
    let mut i: usize = 0;
    proof {
        lemma_cover_empty();
        assert(v@.take(0) =~= Seq::<PortRange>::empty());
        assert(out@ =~= Seq::<PortRange>::empty());
    }
    while i < v.len()
        invariant
            i <= v@.len(),
            normalized(out@),
            cover(out@) == cover(v@.take(i as int)),
        decreases v@.len() - i,
    {
        let x = v[i];
        proof {
            use_type_invariant(&x);
            lemma_cover_take(v@, i as int);
        }
        out = insert_sorted(&out, x);
        i = i + 1;
    }
    assert(v@.take(i as int) =~= v@);
    out
}


/// The ports of the pairs `(lo, hi)`.
pub open spec fn pairs_cover(ps: Seq<(u16, u16)>) -> Set<int> {
    Set::new(|p: int| exists|i: int| 0 <= i < ps.len() && #[trigger] pair_holds(ps[i], p))
}

pub open spec fn pair_holds(q: (u16, u16), p: int) -> bool {
    q.0 <= p <= q.1
}

/// `v` holds the ranges `ps`, in order.
pub open spec fn matches_pairs(v: Seq<PortRange>, ps: Seq<(u16, u16)>) -> bool {
    &&& v.len() == ps.len()
    &&& forall|i: int| 0 <= i < v.len() ==> (#[trigger] v[i]).lo() == ps[i].0 && v[i].hi() == ps[i].1
}

/// What one comma-separated item gives: nothing if it is blank, else its
/// range; an item that is no range but names a service in the built-in
/// table stands for that service's port.
pub open spec fn item_result(s: Seq<char>) -> Result<Seq<(u16, u16)>, Failure> {
    let item = trim(s);
    if item.len() == 0 {
        Ok(Seq::empty())
    } else {
        match range_result(item) {
            Ok(q) => Ok(seq![q]),
            Err(e) => match port_from(item, 0) {
                Some(p) => Ok(seq![(p, p)]),
                None => Err(e),
            },
        }
    }
}

/// The ranges of a comma-separated list, item by item, or the first error.
pub open spec fn list_result(s: Seq<char>) -> Result<Seq<(u16, u16)>, Failure>
    decreases s.len(),
{
    let k = find_char(s, ',');
    match item_result(s.take(k)) {
        Err(e) => Err(e),
        Ok(h) => if 0 <= k < s.len() {
            match list_result(s.skip(k + 1)) {
                Ok(t) => Ok(h + t),
                Err(e) => Err(e),
            }
        } else {
            Ok(h)
        },
    }
}

/// What parsing a spec string gives: the ranges of its items, or `Empty`
/// when it holds no item at all, or the first error.
pub open spec fn spec_result(s: Seq<char>) -> Result<Seq<(u16, u16)>, Failure> {
    let t = trim(s);
    if t.len() == 0 {
        Err(Failure::Empty)
    } else {
        match list_result(t) {
            Err(e) => Err(e),
            Ok(ps) => if ps.len() == 0 {
                Err(Failure::Empty)
            } else {
                Ok(ps)
            },
        }
    }
}

/// The text of a list of ranges: their texts joined by commas.
pub open spec fn list_text(rs: Seq<PortRange>) -> Seq<char>
    decreases rs.len(),
{
    if rs.len() == 0 {
        Seq::empty()
    } else if rs.len() == 1 {
        range_text(rs[0].lo(), rs[0].hi())
    } else {
        list_text(rs.drop_last()) + seq![','] + range_text(rs.last().lo(), rs.last().hi())
    }
}

proof fn lemma_matches_cover(v: Seq<PortRange>, ps: Seq<(u16, u16)>)
    requires
        matches_pairs(v, ps),
    ensures
        cover(v) == pairs_cover(ps),
{
    assert forall|p: int| cover(v).contains(p) <==> pairs_cover(ps).contains(p) by {
        if cover(v).contains(p) {
            let i = choose|i: int| 0 <= i < v.len() && #[trigger] holds(v[i], p);
            assert(pair_holds(ps[i], p));
        }
        if pairs_cover(ps).contains(p) {
            let i = choose|i: int| 0 <= i < ps.len() && #[trigger] pair_holds(ps[i], p);
            assert(holds(v[i], p));
        }
    }
    assert(cover(v) =~= pairs_cover(ps));
}

/// Parses a comma-separated list of ranges; see [`list_result`].
fn parse_list(t: &[char]) -> (r: Result<Vec<PortRange>, ParseError>)
    ensures
        r is Ok <==> list_result(t@) is Ok,
        r matches Ok(v) ==> matches_pairs(v@, list_result(t@)->Ok_0),
        r matches Err(e) ==> list_result(t@) == Err::<Seq<(u16, u16)>, Failure>(e@),
{
    let n = t.len();
    let mut out: Vec<PortRange> = Vec::new();
    let ghost mut ps: Seq<(u16, u16)> = Seq::empty();
    let mut pos: usize = 0;
    assert(t@.skip(0) =~= t@);
    assert(ps + Seq::<(u16, u16)>::empty() =~= ps);
    loop
        invariant
            pos <= n,
            n == t@.len(),
            matches_pairs(out@, ps),
            list_result(t@) == (match list_result(t@.skip(pos as int)) {
                Ok(rest) => Ok(ps + rest),
                Err(e) => Err(e),
            }),
        decreases n - pos,
    {
        let rest = &t[pos..n];
        assert(rest@ =~= t@.skip(pos as int));
        let k = find_char_in(rest, ',');
        let item = trim_chars(&rest[0..k]);
        assert(rest@.take(k as int) =~= rest@.subrange(0, k as int));
        let ghost ps0 = ps;
        if item.len() > 0 {
            let x = match parse_range_chars(item) {
                Ok(x) => x,
                Err(e) => match port_for_chars(item) {
                    Some(p) => PortRange::single(p),
                    None => {
                        return Err(e);
                    },
                },
            };
            out.push(x);
            proof {
                ps = ps.push((x.lo(), x.hi()));
            }
        }
        let ghost h = item_result(rest@.take(k as int))->Ok_0;
        proof {
            assert(item_result(rest@.take(k as int)) is Ok);
            assert(ps =~= ps0 + h);
        }
        if k == rest.len() {
            proof {
                assert(list_result(rest@) == Ok::<Seq<(u16, u16)>, Failure>(h));
            }
            return Ok(out);
        }
        proof {
            assert(rest@.skip(k + 1) =~= t@.skip(pos + k + 1));
            let tail = list_result(rest@.skip(k + 1));
            match tail {
                Ok(tl) => {
                    assert(ps0 + (h + tl) =~= ps + tl);
                },
                Err(_) => {},
            }
        }
        pos = pos + k + 1;
    }
}

/// `port_seq` of a list splits at any index.
proof fn lemma_port_seq_split(rs: Seq<PortRange>, i: int)
    requires
        0 <= i <= rs.len(),
    ensures
        port_seq(rs) == port_seq(rs.take(i)) + port_seq(rs.skip(i)),
    decreases rs.len(),
{
    if i == rs.len() {
        assert(rs.take(i) =~= rs);
        assert(rs.skip(i) =~= Seq::<PortRange>::empty());
        assert(port_seq(rs) + Seq::<u16>::empty() =~= port_seq(rs));
    } else {
        let l = rs.drop_last();
        lemma_port_seq_split(l, i);
        assert(l.take(i) =~= rs.take(i));
        assert(rs.skip(i).drop_last() =~= l.skip(i));
        assert(rs.skip(i).last() == rs.last());
        assert(port_seq(rs) =~= port_seq(rs.take(i)) + port_seq(rs.skip(i)));
    }
}

/// `port_seq` of a non-empty list starts with the ports of its first range.
proof fn lemma_port_seq_front(rs: Seq<PortRange>)
    requires
        rs.len() > 0,
    ensures
        port_seq(rs) == ports_between(rs[0].lo() as int, rs[0].hi() as int) + port_seq(rs.drop_first()),
{
    lemma_port_seq_split(rs, 1);
    assert(rs.take(1).drop_last() =~= Seq::<PortRange>::empty());
    assert(port_seq(rs.take(1).drop_last()) =~= Seq::<u16>::empty());
    assert(rs.take(1).last() == rs[0]);
    assert(port_seq(rs.take(1)) =~= ports_between(rs[0].lo() as int, rs[0].hi() as int));
    assert(rs.skip(1) =~= rs.drop_first());
}

impl PortSpec {
    /// The normalized ranges of the spec.
    pub closed spec fn rs(self) -> Seq<PortRange> {
        self.ranges@
    }

    #[verifier::type_invariant]
    closed spec fn inv(self) -> bool {
        normalized(self.ranges@)
    }

    /// An empty spec covering no ports.
    pub fn new() -> (r: PortSpec)
        ensures
            r@ == Set::<int>::empty(),
            r.rs().len() == 0,
    {
        proof {
            lemma_cover_empty();
        }
        let r = PortSpec { ranges: Vec::new() };
        assert(r.rs() =~= Seq::<PortRange>::empty());
        r
    }

    /// Build a normalized spec from a collection of ranges.
    pub fn from_ranges(ranges: Vec<PortRange>) -> (r: PortSpec)
        ensures
            r@ == cover(ranges@),
            normalized(ranges@) ==> r.rs() == ranges@,
    {
        let out = normalize_vec(ranges.as_slice());
        proof {
            if normalized(ranges@) {
                lemma_canonical(out@, ranges@);
            }
        }
        PortSpec { ranges: out }
    }

    /// A spec holding exactly one range.
    pub fn from_range(range: PortRange) -> (r: PortSpec)
        ensures
            r.rs() == seq![range],
            r@ == range@,
    {
        proof {
            use_type_invariant(&range);
            lemma_cover_single(range);
        }
        let mut v: Vec<PortRange> = Vec::new();
        v.push(range);
        assert(v@ =~= seq![range]);
        PortSpec { ranges: v }
    }

    /// The normalized, non-overlapping ranges, in ascending order.
    pub fn ranges(&self) -> (r: &[PortRange])
        ensures
            r@ == self.rs(),
            normalized(r@),
    {
        proof {
            use_type_invariant(self);
        }
        self.ranges.as_slice()
    }

    /// Add a range to the spec, re-normalizing so the invariant holds.
    pub fn insert(&mut self, range: PortRange)
        ensures
            final(self)@ == old(self)@ + range@,
    {
        proof {
            use_type_invariant(&*self);
            use_type_invariant(&range);
        }
        let out = insert_sorted(&self.ranges, range);
        self.ranges = out;
    }

    /// `true` if the spec covers no ports.
    pub fn is_empty(&self) -> (r: bool)
        ensures
            r == (self@ == Set::<int>::empty()),
    {
        proof {
            use_type_invariant(self);
            if self.rs().len() > 0 {
                assert(self.rs()[0].wf());
                assert(holds(self.rs()[0], self.rs()[0].lo() as int));
                assert(self@.contains(self.rs()[0].lo() as int));
            } else {
                lemma_cover_empty();
                assert(self.rs() =~= Seq::<PortRange>::empty());
            }
        }
        self.ranges.len() == 0
    }

    /// The total number of distinct ports covered.
    pub fn count(&self) -> (r: u32)
        ensures
            self@.finite(),
            r == self@.len(),
            r <= 65536,
    {
        proof {
            use_type_invariant(self);
            lemma_cover_len(self.rs());
        }
        let mut total: u32 = 0;
        let mut i: usize = 0;
        while i < self.ranges.len()
            invariant
                i <= self.rs().len(),
                normalized(self.rs()),
                total == sum_counts(self.rs().take(i as int)),
            decreases self.rs().len() - i,
        {
            let r = self.ranges[i];
            proof {
                lemma_normalized_take(self.rs(), i + 1);
                lemma_cover_len(self.rs().take(i + 1));
                assert(self.rs().take(i + 1).drop_last() =~= self.rs().take(i as int));
            }
            total = total + r.count();
            i = i + 1;
        }
        assert(self.rs().take(i as int) =~= self.rs());
        total
    }

    /// Returns `true` if `port` is covered by the spec.
    ///
    /// Runs a binary search over the normalized ranges, so it is `O(log n)` in
    /// the number of ranges.
    pub fn contains(&self, port: u16) -> (r: bool)
        ensures
            r == self@.contains(port as int),
    {
        proof {
            use_type_invariant(self);
        }
        let n = self.ranges.len();
        let mut lo: usize = 0;
        let mut hi: usize = n;
        while lo < hi
            invariant
                lo <= hi <= n,
                n == self.rs().len(),
                normalized(self.rs()),
                forall|k: int| 0 <= k < lo ==> #[trigger] self.rs()[k].hi() < port,
                forall|k: int| hi <= k < n ==> port < #[trigger] self.rs()[k].lo(),
            decreases hi - lo,
        {
            let mid = lo + (hi - lo) / 2;
            let r = self.ranges[mid];
            if port < r.start() {
                proof {
                    assert forall|k: int| mid <= k < n implies port < #[trigger] self.rs()[k].lo() by {
                        if k > mid {
                            assert(self.rs()[mid as int].hi() + 1 < self.rs()[k].lo());
                            assert(self.rs()[mid as int].wf());
                        }
                    }
                }
                hi = mid;
            } else if port > r.end() {
                proof {
                    assert forall|k: int| 0 <= k < mid + 1 implies #[trigger] self.rs()[k].hi() < port by {
                        if k < mid {
                            assert(self.rs()[k].hi() + 1 < self.rs()[mid as int].lo());
                            assert(self.rs()[mid as int].wf());
                        }
                    }
                }
                lo = mid + 1;
            } else {
                assert(holds(self.rs()[mid as int], port as int));
                return true;
            }
        }
        proof {
            if self@.contains(port as int) {
                let k = choose|k: int| 0 <= k < n && #[trigger] holds(self.rs()[k], port as int);
                if k < lo {
                    assert(self.rs()[k].hi() < port);
                } else {
                    assert(port < self.rs()[k].lo());
                }
            }
        }
        false
    }

    /// The union of two specs: every port in either.
    pub fn union(&self, other: &PortSpec) -> (r: PortSpec)
        ensures
            r@ == self@ + other@,
    {
        proof {
            use_type_invariant(self);
            use_type_invariant(other);
        }
        let mut out = copy_ranges(self.ranges.as_slice());
        let mut i: usize = 0;
        proof {
            assert(other.rs().take(0) =~= Seq::<PortRange>::empty());
            lemma_cover_empty();
            assert(self@ + cover(other.rs().take(0)) =~= self@);
        }
        while i < other.ranges.len()
            invariant
                i <= other.rs().len(),
                normalized(other.rs()),
                normalized(out@),
                cover(out@) == self@ + cover(other.rs().take(i as int)),
            decreases other.rs().len() - i,
        {
            let x = other.ranges[i];
            proof {
                assert(x.wf());
                lemma_cover_take(other.rs(), i as int);
                assert(self@ + cover(other.rs().take(i + 1)) =~= self@ + cover(other.rs().take(i as int)) + x@);
            }
            out = insert_sorted(&out, x);
            i = i + 1;
        }
        assert(other.rs().take(i as int) =~= other.rs());
        PortSpec { ranges: out }
    }

    /// The difference of two specs: ports in `self` that are not in `other`.
    pub fn difference(&self, other: &PortSpec) -> (r: PortSpec)
        ensures
            r@ == self@.difference(other@),
    {
        proof {
            use_type_invariant(self);
            use_type_invariant(other);
        }
        let mut out: Vec<PortRange> = Vec::new();
        let n = self.ranges.len();
        let m = other.ranges.len();
        let mut i: usize = 0;
        proof {
            lemma_cover_empty();
            assert(self.rs().take(0) =~= Seq::<PortRange>::empty());
            assert(out@ =~= Seq::<PortRange>::empty());
            assert(cover(self.rs().take(0)).difference(other@) =~= Set::<int>::empty());
        }
        while i < n
            invariant
                i <= n,
                n == self.rs().len(),
                m == other.rs().len(),
                normalized(self.rs()),
                normalized(other.rs()),
                cover(out@) == cover(self.rs().take(i as int)).difference(other@),
            decreases n - i,
        {
            let r = self.ranges[i];
            let ghost before = cover(out@);
            // `cur` walks across `r` in u32 so the `+1` past 65535 never wraps.
            let mut cur: u32 = r.start() as u32;
            let end: u32 = r.end() as u32;
            let mut j: usize = 0;
            proof {
                assert(r.wf());
                assert(span(r.lo() as int, cur - 1).difference(other@) =~= Set::<int>::empty());
                assert(before + Set::<int>::empty() =~= before);
            }
            while j < m && cur <= end
                invariant
                    j <= m,
                    m == other.rs().len(),
                    normalized(other.rs()),
                    r.lo() <= cur <= 65536,
                    end == r.hi(),
                    r.lo() <= r.hi(),
                    cover(out@) == before + span(r.lo() as int, cur - 1).difference(other@),
                    forall|k: int|
                        0 <= k < j ==> #[trigger] other.rs()[k].hi() < cur || other.rs()[k].lo()
                            > end,
                    forall|p: int| end < p < cur ==> other@.contains(p),
                decreases m - j,
            {
                let o = other.ranges[j];
                let os = o.start() as u32;
                let oe = o.end() as u32;
                proof {
                    assert(o.wf());
                }
                if oe < cur || os > end {
                    j = j + 1;
                } else {
                    let ghost old_cur = cur;
                    proof {
                        assert(holds(other.rs()[j as int], os as int));
                        assert forall|p: int| os <= p <= oe implies other@.contains(p) by {
                            assert(holds(other.rs()[j as int], p));
                        }
                    }
                    if os > cur {
                        let piece = PortRange::between(cur as u16, (os - 1) as u16);
                        proof {
                            assert forall|p: int| cur <= p < os implies !other@.contains(p) by {
                                if other@.contains(p) {
                                    let k = choose|k: int|
                                        0 <= k < m && #[trigger] holds(other.rs()[k], p);
                                    if k > j {
                                        assert(other.rs()[j as int].hi() + 1 < other.rs()[k].lo());
                                    }
                                }
                            }
                            lemma_cover_push(out@, piece);
                            assert(before + span(r.lo() as int, cur - 1).difference(other@) + piece@
                                =~= before + span(r.lo() as int, os - 1).difference(other@));
                        }
                        out.push(piece);
                        proof {
                            assert(span(r.lo() as int, os - 1).difference(other@) =~= span(
                                r.lo() as int,
                                oe as int,
                            ).difference(other@));
                        }
                    } else {
                        proof {
                            assert(span(r.lo() as int, cur - 1).difference(other@) =~= span(
                                r.lo() as int,
                                oe as int,
                            ).difference(other@));
                        }
                    }
                    cur = oe + 1;
                    proof {
                        assert forall|p: int| end < p < cur implies other@.contains(p) by {
                            if p <= oe {
                                assert(os <= p);
                            }
                        }
                    }
                    j = j + 1;
                }
            }
            if cur <= end {
                let piece = PortRange::between(cur as u16, end as u16);
                proof {
                    assert forall|p: int| cur <= p <= end implies !other@.contains(p) by {
                        if other@.contains(p) {
                            let k = choose|k: int| 0 <= k < m && #[trigger] holds(other.rs()[k], p);
                        }
                    }
                    lemma_cover_push(out@, piece);
                    assert(before + span(r.lo() as int, cur - 1).difference(other@) + piece@
                        =~= before + r@.difference(other@));
                }
                out.push(piece);
            } else {
                proof {
                    assert(span(r.lo() as int, cur - 1).difference(other@) =~= r@.difference(
                        other@,
                    ));
                }
            }
            proof {
                lemma_cover_take(self.rs(), i as int);
                assert(cover(out@) =~= cover(self.rs().take(i + 1)).difference(other@));
            }
            i = i + 1;
        }
        assert(self.rs().take(i as int) =~= self.rs());
        PortSpec::from_ranges(out)
    }

    /// The intersection of two specs: only ports present in both.
    pub fn intersection(&self, other: &PortSpec) -> (r: PortSpec)
        ensures
            r@ == self@.intersect(other@),
    {
        proof {
            use_type_invariant(self);
            use_type_invariant(other);
        }
        let mut out: Vec<PortRange> = Vec::new();
        let n = self.ranges.len();
        let m = other.ranges.len();
        let mut i: usize = 0;
        proof {
            lemma_cover_empty();
            assert(self.rs().take(0) =~= Seq::<PortRange>::empty());
            assert(out@ =~= Seq::<PortRange>::empty());
            assert(cover(self.rs().take(0)).intersect(other@) =~= Set::<int>::empty());
        }
        while i < n
            invariant
                i <= n,
                n == self.rs().len(),
                m == other.rs().len(),
                cover(out@) == cover(self.rs().take(i as int)).intersect(other@),
            decreases n - i,
        {
            let a = self.ranges[i];
            let ghost before = cover(out@);
            let mut j: usize = 0;
            proof {
                assert(other.rs().take(0) =~= Seq::<PortRange>::empty());
                assert(before + a@.intersect(cover(other.rs().take(0))) =~= before);
            }
            while j < m
                invariant
                    j <= m,
                    m == other.rs().len(),
                    cover(out@) == before + a@.intersect(cover(other.rs().take(j as int))),
                decreases m - j,
            {
                let b = other.ranges[j];
                proof {
                    lemma_cover_take(other.rs(), j as int);
                }
                match a.intersection(&b) {
                    Some(x) => {
                        proof {
                            lemma_cover_push(out@, x);
                            assert(before + a@.intersect(cover(other.rs().take(j + 1))) =~= before
                                + a@.intersect(cover(other.rs().take(j as int))) + x@);
                        }
                        out.push(x);
                    },
                    None => {
                        proof {
                            assert(a@.intersect(cover(other.rs().take(j + 1))) =~= a@.intersect(
                                cover(other.rs().take(j as int)),
                            ));
                        }
                    },
                }
                j = j + 1;
            }
            proof {
                assert(other.rs().take(j as int) =~= other.rs());
                lemma_cover_take(self.rs(), i as int);
                assert(cover(out@) =~= cover(self.rs().take(i + 1)).intersect(other@));
            }
            i = i + 1;
        }
        assert(self.rs().take(i as int) =~= self.rs());
        PortSpec::from_ranges(out)
    }

    /// Returns `true` if the two specs share at least one port.
    pub fn overlaps(&self, other: &PortSpec) -> (r: bool)
        ensures
            r == !self@.disjoint(other@),
    {
        let n = self.ranges.len();
        let m = other.ranges.len();
        let mut i: usize = 0;
        while i < n
            invariant
                i <= n,
                n == self.rs().len(),
                m == other.rs().len(),
                forall|k: int| 0 <= k < i ==> (#[trigger] self.rs()[k])@.disjoint(other@),
            decreases n - i,
        {
            let a = self.ranges[i];
            let mut j: usize = 0;
            while j < m
                invariant
                    j <= m,
                    m == other.rs().len(),
                    i < n,
                    n == self.rs().len(),
                    a == self.rs()[i as int],
                    forall|l: int| 0 <= l < j ==> a@.disjoint((#[trigger] other.rs()[l])@),
                decreases m - j,
            {
                let b = other.ranges[j];
                if a.overlaps(&b) {
                    proof {
                        let p = choose|p: int| a@.contains(p) && b@.contains(p);
                        assert(holds(self.rs()[i as int], p));
                        assert(holds(other.rs()[j as int], p));
                        assert(self@.contains(p) && other@.contains(p));
                    }
                    return true;
                }
                j = j + 1;
            }
            proof {
                assert forall|p: int| a@.contains(p) implies !other@.contains(p) by {
                    if other@.contains(p) {
                        let l = choose|l: int| 0 <= l < m && #[trigger] holds(other.rs()[l], p);
                        assert(other.rs()[l]@.contains(p));
                    }
                }
            }
            i = i + 1;
        }
        proof {
            assert forall|p: int| self@.contains(p) implies !other@.contains(p) by {
                let k = choose|k: int| 0 <= k < n && #[trigger] holds(self.rs()[k], p);
                assert(self.rs()[k]@.contains(p));
            }
        }
        false
    }

    /// Returns `true` if every port in `self` is also in `other`.
    pub fn is_subset_of(&self, other: &PortSpec) -> (r: bool)
        ensures
            r == self@.subset_of(other@),
    {
        let d = self.difference(other);
        let r = d.is_empty();
        proof {
            if !r {
                assert(!(self@.difference(other@) =~= Set::<int>::empty()));
            } else {
                assert forall|p: int| self@.contains(p) implies other@.contains(p) by {
                    assert(!self@.difference(other@).contains(p));
                }
            }
        }
        r
    }

    /// Returns `true` if every port in `other` is also in `self`.
    pub fn contains_spec(&self, other: &PortSpec) -> (r: bool)
        ensures
            r == other@.subset_of(self@),
    {
        other.is_subset_of(self)
    }

    /// The complement of the spec restricted to `bound` — the ports of `bound`
    /// that the spec does not cover.
    pub fn complement_within(&self, bound: PortRange) -> (r: PortSpec)
        ensures
            r@ == bound@.difference(self@),
    {
        PortSpec::from_range(bound).difference(self)
    }

    /// The complement of the spec over the whole port space (`0..=65535`) —
    /// every port *not* covered.
    pub fn complement(&self) -> (r: PortSpec)
        ensures
            r@ == all_ports().difference(self@),
    {
        self.complement_within(PortRange::full())
    }

    /// Remove every port in `range` from the spec.
    pub fn remove(&mut self, range: PortRange)
        ensures
            final(self)@ == old(self)@.difference(range@),
    {
        let r = self.difference(&PortSpec::from_range(range));
        *self = r;
    }

    /// Every port in the spec, ascending, without duplicates.
    pub fn ports(&self) -> (v: Vec<u16>)
        ensures
            v@ == port_seq(self.rs()),
    {
        let mut out: Vec<u16> = Vec::new();
        let n = self.ranges.len();
        let mut i: usize = 0;
        assert(self.rs().take(0) =~= Seq::<PortRange>::empty());
        while i < n
            invariant
                i <= n,
                n == self.rs().len(),
                out@ == port_seq(self.rs().take(i as int)),
            decreases n - i,
        {
            let r = self.ranges[i];
            proof {
                use_type_invariant(&r);
            }
            let mut p: u32 = r.start() as u32;
            let end: u32 = r.end() as u32;
            let ghost base = out@;
            assert(ports_between(r.lo() as int, p - 1) =~= Seq::<u16>::empty());
            assert(base + Seq::<u16>::empty() =~= base);
            while p <= end
                invariant
                    r.lo() <= p <= end + 1,
                    end == r.hi(),
                    end <= 65535,
                    out@ == base + ports_between(r.lo() as int, p - 1),
                decreases end + 1 - p,
            {
                out.push(p as u16);
                assert(ports_between(r.lo() as int, p as int) =~= ports_between(r.lo() as int, p - 1).push(p as u16));
                p = p + 1;
            }
            proof {
                assert(self.rs().take(i + 1).drop_last() =~= self.rs().take(i as int));
            }
            i = i + 1;
        }
        assert(self.rs().take(i as int) =~= self.rs());
        out
    }

    /// Iterate over every port in the spec, ascending, without duplicates.
    pub fn iter(&self) -> (it: std::vec::IntoIter<u16>)
        ensures
            it.remaining() == port_seq(self.rs()),
    {
        broadcast use vstd::std_specs::vec::axiom_spec_into_iter;
        let v = self.ports();
        v.into_iter()
    }

    /// The text of the spec, as its `Display` form prints it: the ranges in
    /// ascending order, joined by commas.
    pub fn to_string(&self) -> (r: String)
        ensures
            r@ == list_text(self.rs()),
    {
        let mut r = String::new();
        let n = self.ranges.len();
        let mut i: usize = 0;
        assert(self.rs().take(0) =~= Seq::<PortRange>::empty());
        while i < n
            invariant
                i <= n,
                n == self.rs().len(),
                r@ == list_text(self.rs().take(i as int)),
            decreases n - i,
        {
            let x = self.ranges[i];
            if i > 0 {
                push_char(&mut r, ',');
            }
            x.write_to(&mut r);
            proof {
                let t = self.rs().take(i + 1);
                assert(t.drop_last() =~= self.rs().take(i as int));
                if i == 0 {
                    assert(r@ =~= list_text(t));
                }
            }
            i = i + 1;
        }
        assert(self.rs().take(i as int) =~= self.rs());
        r
    }

    /// Parse a comma-separated list of ports, ranges and service names
    /// (`"ssh,http,8000-8002"`). Whitespace around items is ignored; empty
    /// items (e.g. a trailing comma) are skipped.
    pub fn parse(s: &str) -> (r: Result<PortSpec, ParseError>)
        ensures
            r is Ok <==> spec_result(s@) is Ok,
            r matches Ok(x) ==> x@ == pairs_cover(spec_result(s@)->Ok_0),
            r matches Err(e) ==> spec_result(s@) == Err::<Seq<(u16, u16)>, Failure>(e@),
    {
        let cs = chars_of(s);
        let t = trim_chars(cs.as_slice());
        if t.len() == 0 {
            return Err(ParseError::Empty);
        }
        let v = parse_list(t)?;
        if v.len() == 0 {
            return Err(ParseError::Empty);
        }
        proof {
            lemma_matches_cover(v@, list_result(t@)->Ok_0);
        }
        Ok(PortSpec::from_ranges(v))
    }

    /// Build a spec from individual ports; adjacent ports merge into ranges.
    pub fn from_ports(ports: &[u16]) -> (r: PortSpec)
        ensures
            r@ == Set::new(|p: int| exists|i: int| 0 <= i < ports@.len() && ports@[i] == p),
    {
        let mut v: Vec<PortRange> = Vec::new();
        let mut i: usize = 0;
        while i < ports.len()
            invariant
                i <= ports@.len(),
                v@.len() == i,
                forall|k: int| 0 <= k < i ==> (#[trigger] v@[k]).lo() == ports@[k] && v@[k].hi() == ports@[k],
            decreases ports@.len() - i,
        {
            v.push(PortRange::single(ports[i]));
            i = i + 1;
        }
        let r = PortSpec::from_ranges(v);
        proof {
            let target = Set::new(|p: int| exists|i: int| 0 <= i < ports@.len() && ports@[i] == p);
            assert forall|p: int| cover(v@).contains(p) <==> target.contains(p) by {
                if cover(v@).contains(p) {
                    let k = choose|k: int| 0 <= k < v@.len() && #[trigger] holds(v@[k], p);
                    assert(ports@[k] == p);
                }
                if target.contains(p) {
                    let k = choose|k: int| 0 <= k < ports@.len() && ports@[k] == p;
                    assert(holds(v@[k], p));
                }
            }
            assert(cover(v@) =~= target);
        }
        r
    }

    /// The lowest port in the spec, or `None` if it is empty.
    pub fn first(&self) -> (r: Option<u16>)
        ensures
            r is None <==> self@ == Set::<int>::empty(),
            r matches Some(p) ==> self@.contains(p as int) && forall|q: int| self@.contains(q) ==> p <= q,
    {
        proof {
            use_type_invariant(self);
        }
        if self.ranges.len() == 0 {
            proof {
                lemma_cover_empty();
                assert(self.rs() =~= Seq::<PortRange>::empty());
            }
            None
        } else {
            proof {
                crate::cover::lemma_first_range(self.rs());
            }
            Some(self.ranges[0].start())
        }
    }

    /// The highest port in the spec, or `None` if it is empty.
    pub fn last(&self) -> (r: Option<u16>)
        ensures
            r is None <==> self@ == Set::<int>::empty(),
            r matches Some(p) ==> self@.contains(p as int) && forall|q: int| self@.contains(q) ==> q <= p,
    {
        proof {
            use_type_invariant(self);
        }
        let n = self.ranges.len();
        if n == 0 {
            proof {
                lemma_cover_empty();
                assert(self.rs() =~= Seq::<PortRange>::empty());
            }
            None
        } else {
            let r = self.ranges[n - 1];
            proof {
                assert(r.wf());
                assert(holds(self.rs()[n - 1], r.hi() as int));
                assert(self@.contains(r.hi() as int));
                assert forall|q: int| self@.contains(q) implies q <= r.hi() by {
                    let k = choose|k: int| 0 <= k < n && #[trigger] holds(self.rs()[k], q);
                    if k < n - 1 {
                        assert(self.rs()[k].hi() + 1 < self.rs()[n - 1].lo());
                    }
                }
            }
            Some(r.end())
        }
    }

    /// The `index`th port in ascending order (counting from 0), without
    /// iterating to it; `None` past the end.
    pub fn nth_port(&self, index: u32) -> (r: Option<u16>)
        ensures
            index < port_seq(self.rs()).len() <==> r is Some,
            r matches Some(p) ==> p == port_seq(self.rs())[index as int],
    {
        proof {
            use_type_invariant(self);
            crate::laws::law_port_seq(self.rs());
        }
        let n = self.ranges.len();
        let mut i: usize = 0;
        let mut skipped: u32 = 0;
        assert(self.rs().take(0) =~= Seq::<PortRange>::empty());
        proof {
            lemma_port_seq_split(self.rs(), 0);
        }
        while i < n
            invariant
                i <= n,
                n == self.rs().len(),
                normalized(self.rs()),
                skipped == port_seq(self.rs().take(i as int)).len(),
                skipped <= index,
                port_seq(self.rs()) =~= port_seq(self.rs().take(i as int)) + port_seq(self.rs().skip(i as int)),
            decreases n - i,
        {
            let r = self.ranges[i];
            proof {
                assert(r.wf());
                lemma_port_seq_split(self.rs(), i as int);
            }
            let c = r.count();
            if index - skipped < c {
                let off = index - skipped;
                proof {
                    let t = self.rs().skip(i as int);
                    lemma_port_seq_front(t);
                    assert(port_seq(self.rs())[index as int] == port_seq(t)[off as int]);
                }
                return Some((r.start() as u32 + off) as u16);
            }
            proof {
                assert(self.rs().take(i + 1).drop_last() =~= self.rs().take(i as int));
                lemma_port_seq_split(self.rs(), i + 1);
            }
            skipped = skipped + c;
            i = i + 1;
        }
        proof {
            assert(self.rs().skip(i as int) =~= Seq::<PortRange>::empty());
            assert(port_seq(self.rs().skip(i as int)) =~= Seq::<u16>::empty());
        }
        None
    }

    /// Every port in the spec, ascending, each with its service name from the
    /// built-in table, if any.
    pub fn iter_named(&self) -> (v: Vec<(u16, Option<&'static str>)>)
        ensures
            v@.len() == port_seq(self.rs()).len(),
            forall|i: int|
                0 <= i < v@.len() ==> (#[trigger] v@[i]).0 == port_seq(self.rs())[i] && (v@[i].1
                    is Some <==> name_from(v@[i].0, 0) is Some) && (v@[i].1 matches Some(n) ==> n@
                    == name_from(v@[i].0, 0)->Some_0),
    {
        let ports = self.ports();
        let mut out: Vec<(u16, Option<&'static str>)> = Vec::new();
        let mut i: usize = 0;
        while i < ports.len()
            invariant
                i <= ports@.len(),
                ports@ == port_seq(self.rs()),
                out@.len() == i,
                forall|k: int|
                    0 <= k < i ==> (#[trigger] out@[k]).0 == ports@[k] && (out@[k].1 is Some
                        <==> name_from(out@[k].0, 0) is Some) && (out@[k].1 matches Some(n) ==> n@
                        == name_from(out@[k].0, 0)->Some_0),
            decreases ports@.len() - i,
        {
            let p = ports[i];
            out.push((p, service_for(p)));
            i = i + 1;
        }
        out
    }
}

impl Clone for PortSpec {
    fn clone(&self) -> (r: PortSpec)
        ensures
            r.rs() == self.rs(),
    {
        proof {
            use_type_invariant(self);
        }
        PortSpec { ranges: copy_ranges(self.ranges.as_slice()) }
    }
}

impl Default for PortSpec {
    fn default() -> (r: PortSpec)
        ensures
            r.rs().len() == 0,
            r@ == Set::<int>::empty(),
    {
        PortSpec::new()
    }
}

impl IntoIterator for PortSpec {
    type Item = u16;
    type IntoIter = std::vec::IntoIter<u16>;

    fn into_iter(self) -> (it: std::vec::IntoIter<u16>)
        ensures
            it.remaining() == port_seq(self.rs()),
    {
        self.iter()
    }
}

impl std::str::FromStr for PortSpec {
    type Err = ParseError;

    fn from_str(s: &str) -> (r: Result<PortSpec, ParseError>)
        ensures
            r is Ok <==> spec_result(s@) is Ok,
            r matches Ok(x) ==> x@ == pairs_cover(spec_result(s@)->Ok_0),
            r matches Err(e) ==> spec_result(s@) == Err::<Seq<(u16, u16)>, Failure>(e@),
    {
        PortSpec::parse(s)
    }
}

} // verus!
