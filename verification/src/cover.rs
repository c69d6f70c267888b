//! The mathematics of lists of port ranges: which ports a list covers, when a
//! list is in normal form, and the facts the set operations rest on.
use vstd::prelude::*;
use vstd::set_lib::{lemma_int_range, lemma_len_subset, lemma_set_disjoint_lens, set_int_range};

use crate::range::{PortRange, span, ports_between};

verus! {

/// `p` lies within `r`.
pub open spec fn holds(r: PortRange, p: int) -> bool {
    r.lo() <= p <= r.hi()
}

/// The ports covered by at least one range of `rs`.
pub open spec fn cover(rs: Seq<PortRange>) -> Set<int> {
    Set::new(|p: int| exists|i: int| 0 <= i < rs.len() && #[trigger] holds(rs[i], p))
}

/// Normal form: every range well formed, ranges in ascending order, and
/// neither overlapping nor touching (a gap of at least one port between any
/// two).
pub open spec fn normalized(rs: Seq<PortRange>) -> bool {
    &&& forall|i: int| 0 <= i < rs.len() ==> (#[trigger] rs[i]).wf()
    &&& forall|i: int, j: int|
        0 <= i < j < rs.len() ==> #[trigger] rs[i].hi() + 1 < #[trigger] rs[j].lo()
}

/// The sum of the sizes of the ranges.
pub open spec fn sum_counts(rs: Seq<PortRange>) -> int
    decreases rs.len(),
{
    if rs.len() == 0 {
        0
    } else {
        sum_counts(rs.drop_last()) + (rs.last().hi() - rs.last().lo() + 1)
    }
}

/// Every port of every range, range after range.
pub open spec fn port_seq(rs: Seq<PortRange>) -> Seq<u16>
    decreases rs.len(),
{
    if rs.len() == 0 {
        Seq::empty()
    } else {
        port_seq(rs.drop_last()) + ports_between(rs.last().lo() as int, rs.last().hi() as int)
    }
}

/// The whole port space.
pub open spec fn all_ports() -> Set<int> {
    span(0, 65535)
}

pub proof fn lemma_cover_empty()
    ensures
        cover(Seq::<PortRange>::empty()) == Set::<int>::empty(),
{
    assert(cover(Seq::<PortRange>::empty()) =~= Set::<int>::empty());
}

pub proof fn lemma_cover_push(s: Seq<PortRange>, y: PortRange)
    ensures
        cover(s.push(y)) == cover(s) + y@,
{
    let t = s.push(y);
    assert forall|p: int| cover(t).contains(p) <==> (cover(s) + y@).contains(p) by {
        if cover(t).contains(p) {
            let i = choose|i: int| 0 <= i < t.len() && #[trigger] holds(t[i], p);
            if i < s.len() {
                assert(holds(s[i], p));
            }
        }
        if cover(s).contains(p) {
            let i = choose|i: int| 0 <= i < s.len() && #[trigger] holds(s[i], p);
            assert(holds(t[i], p));
        }
        if y@.contains(p) {
            assert(holds(t[s.len() as int], p));
        }
    }
    assert(cover(t) =~= cover(s) + y@);
}

pub proof fn lemma_cover_take(s: Seq<PortRange>, i: int)
    requires
        0 <= i < s.len(),
    ensures
        cover(s.take(i + 1)) == cover(s.take(i)) + s[i]@,
{
    assert(s.take(i + 1) =~= s.take(i).push(s[i]));
    lemma_cover_push(s.take(i), s[i]);
}

pub proof fn lemma_cover_single(r: PortRange)
    ensures
        cover(seq![r]) == r@,
{
    lemma_cover_empty();
    assert(seq![r] =~= Seq::<PortRange>::empty().push(r));
    lemma_cover_push(Seq::<PortRange>::empty(), r);
    assert(cover(seq![r]) =~= r@);
}

pub proof fn lemma_normalized_push(s: Seq<PortRange>, y: PortRange)
    requires
        normalized(s),
        y.wf(),
        forall|k: int| 0 <= k < s.len() ==> #[trigger] s[k].hi() + 1 < y.lo(),
    ensures
        normalized(s.push(y)),
{
    let t = s.push(y);
    assert forall|i: int, j: int| 0 <= i < j < t.len() implies #[trigger] t[i].hi() + 1
        < #[trigger] t[j].lo() by {
        if j < s.len() {
            assert(s[i].hi() + 1 < s[j].lo());
        } else {
            assert(s[i].hi() + 1 < y.lo());
        }
    }
}

pub proof fn lemma_normalized_take(s: Seq<PortRange>, i: int)
    requires
        normalized(s),
        0 <= i <= s.len(),
    ensures
        normalized(s.take(i)),
{
    let t = s.take(i);
    assert forall|a: int, b: int| 0 <= a < b < t.len() implies #[trigger] t[a].hi() + 1
        < #[trigger] t[b].lo() by {
        assert(s[a].hi() + 1 < s[b].lo());
    }
    assert forall|a: int| 0 <= a < t.len() implies (#[trigger] t[a]).wf() by {
        assert(s[a].wf());
    }
}

pub proof fn lemma_normalized_skip(s: Seq<PortRange>, i: int)
    requires
        normalized(s),
        0 <= i <= s.len(),
    ensures
        normalized(s.skip(i)),
{
    let t = s.skip(i);
    assert forall|a: int, b: int| 0 <= a < b < t.len() implies #[trigger] t[a].hi() + 1
        < #[trigger] t[b].lo() by {
        assert(s[a + i].hi() + 1 < s[b + i].lo());
    }
    assert forall|a: int| 0 <= a < t.len() implies (#[trigger] t[a]).wf() by {
        assert(s[a + i].wf());
    }
}

/// A normalized list covers a finite set whose size is the sum of the range
/// sizes.
pub proof fn lemma_cover_len(s: Seq<PortRange>)
    requires
        normalized(s),
    ensures
        cover(s).finite(),
        cover(s).len() == sum_counts(s),
        cover(s).subset_of(all_ports()),
        sum_counts(s) <= 65536,
    decreases s.len(),
{
    if s.len() == 0 {
        lemma_cover_empty();
        assert(s =~= Seq::<PortRange>::empty());
        assert(cover(s).subset_of(all_ports()));
    } else {
        let p = s.drop_last();
        let y = s.last();
        lemma_normalized_take(s, s.len() - 1);
        assert(p =~= s.take(s.len() - 1));
        lemma_cover_len(p);
        assert(s =~= p.push(y));
        lemma_cover_push(p, y);
        assert(y.wf());
        lemma_int_range(y.lo() as int, y.hi() + 1);
        assert(y@ =~= set_int_range(y.lo() as int, y.hi() + 1));
        assert(cover(p).disjoint(y@)) by {
            assert forall|q: int| cover(p).contains(q) implies !y@.contains(q) by {
                let i = choose|i: int| 0 <= i < p.len() && #[trigger] holds(p[i], q);
                assert(s[i].hi() + 1 < s[s.len() - 1].lo());
            }
        }
        vstd::set::axiom_set_union_finite(cover(p), y@);
        lemma_set_disjoint_lens(cover(p), y@);
        assert(cover(s) == cover(p) + y@);
        assert(sum_counts(s) == sum_counts(p) + (y.hi() - y.lo() + 1));
        assert forall|q: int| cover(s).contains(q) implies all_ports().contains(q) by {
            let i = choose|i: int| 0 <= i < s.len() && #[trigger] holds(s[i], q);
        }
        lemma_int_range(0, 65536);
        assert(all_ports() =~= set_int_range(0, 65536));
        lemma_len_subset(cover(s), all_ports());
    }
}

/// Two lists in normal form that cover the same ports are the same list:
/// the normal form of a set of ports is unique.
pub proof fn lemma_canonical(a: Seq<PortRange>, b: Seq<PortRange>)
    requires
        normalized(a),
        normalized(b),
        cover(a) == cover(b),
    ensures
        a == b,
    decreases a.len(),
{
    if a.len() == 0 {
        if b.len() > 0 {
            assert(holds(b[0], b[0].lo() as int));
            assert(cover(b).contains(b[0].lo() as int));
            lemma_cover_empty();
        }
        assert(a =~= b);
    } else if b.len() == 0 {
        assert(holds(a[0], a[0].lo() as int));
        assert(cover(a).contains(a[0].lo() as int));
        lemma_cover_empty();
    } else {
        let x = a[0];
        let y = b[0];
        lemma_first_range(a);
        lemma_first_range(b);
        // Both first ranges start at the smallest covered port.
        assert(x.lo() == y.lo()) by {
            assert(cover(a).contains(x.lo() as int));
            assert(cover(b).contains(y.lo() as int));
        }
        // Both end just before the first port that is not covered.
        assert(x.hi() == y.hi()) by {
            if x.hi() < y.hi() {
                assert(holds(y, x.hi() + 1));
                assert(cover(b).contains(x.hi() + 1));
            } else if y.hi() < x.hi() {
                assert(holds(x, y.hi() + 1));
                assert(cover(a).contains(y.hi() + 1));
            }
        }
        PortRange::lemma_ext(x, y);
        let a1 = a.drop_first();
        let b1 = b.drop_first();
        assert(a1 =~= a.skip(1));
        assert(b1 =~= b.skip(1));
        lemma_normalized_skip(a, 1);
        lemma_normalized_skip(b, 1);
        lemma_cover_rest(a);
        lemma_cover_rest(b);
        assert(cover(a1) =~= cover(b1));
        lemma_canonical(a1, b1);
        assert(a =~= seq![x] + a1);
        assert(b =~= seq![y] + b1);
    }
}

/// In a normalized list the first range starts at the least covered port and
/// is followed by a port that is not covered.
pub proof fn lemma_first_range(a: Seq<PortRange>)
    requires
        normalized(a),
        a.len() > 0,
    ensures
        cover(a).contains(a[0].lo() as int),
        forall|p: int| cover(a).contains(p) ==> a[0].lo() <= p,
        !cover(a).contains(a[0].hi() + 1),
        forall|p: int| a[0].lo() <= p <= a[0].hi() ==> cover(a).contains(p),
{
    assert(a[0].wf());
    assert(holds(a[0], a[0].lo() as int));
    assert forall|p: int| cover(a).contains(p) implies a[0].lo() <= p by {
        let i = choose|i: int| 0 <= i < a.len() && #[trigger] holds(a[i], p);
        if i > 0 {
            assert(a[0].hi() + 1 < a[i].lo());
        }
    }
    assert forall|p: int| a[0].lo() <= p <= a[0].hi() implies cover(a).contains(p) by {
        assert(holds(a[0], p));
    }
    if cover(a).contains(a[0].hi() + 1) {
        let q = a[0].hi() + 1;
        let i = choose|i: int| 0 <= i < a.len() && #[trigger] holds(a[i], q);
        if i > 0 {
            assert(a[0].hi() + 1 < a[i].lo());
        }
    }
}

/// Without its first range, a normalized list covers what it covered, less
/// that range.
pub proof fn lemma_cover_rest(a: Seq<PortRange>)
    requires
        normalized(a),
        a.len() > 0,
    ensures
        cover(a.drop_first()) == cover(a).difference(a[0]@),
{
    let a1 = a.drop_first();
    assert forall|p: int| cover(a1).contains(p) <==> cover(a).difference(a[0]@).contains(p) by {
        if cover(a1).contains(p) {
            let i = choose|i: int| 0 <= i < a1.len() && #[trigger] holds(a1[i], p);
            assert(holds(a[i + 1], p));
            assert(a[0].hi() + 1 < a[i + 1].lo());
        }
        if cover(a).difference(a[0]@).contains(p) {
            let i = choose|i: int| 0 <= i < a.len() && #[trigger] holds(a[i], p);
            assert(i != 0);
            assert(holds(a1[i - 1], p));
        }
    }
    assert(cover(a1) =~= cover(a).difference(a[0]@));
}

} // verus!
