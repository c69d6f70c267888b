//! Properties of the library as a whole: round trips between text and
//! values, and facts about the normal form that span several operations.
use vstd::prelude::*;
use vstd::set_lib::{lemma_int_range, lemma_len_difference, set_int_range};

use crate::cover::{
    all_ports, cover, holds, lemma_cover_len, lemma_normalized_take, normalized, port_seq,
    sum_counts,
};
use crate::error::Failure;
use crate::range::{PortRange, find_char, port_result, ports_between, range_result, range_text};
use crate::spec::{item_result, list_result, list_text, pairs_cover, pair_holds, spec_result};
use crate::proto::{Proto, proto_result};
use crate::tagged::{chunk_step, join, tagged_parts, tagged_result, tagged_text};
use vstd::utf8::{encode_scalar, encode_utf8};
use crate::cli::{Options, combined, port_line, rendered, union_all};
use crate::presets::{TOP_1000_TCP_LIST, TOP_100_TCP_LIST, law_top_1000_extends_top_100, preset_choice, preset_ports};
use crate::services::{SERVICES_COUNT, ascii_lower, eq_ignore_case, port_from, table_row};
use crate::text::{dec, is_digit, is_ws, lead_ws, lemma_dec, lemma_parse_dec, trail_ws, trim};

verus! {

/// A string with no whitespace at either end is its own trim.
pub proof fn lemma_trim_id(s: Seq<char>)
    requires
        s.len() > 0,
        !is_ws(s[0]),
        !is_ws(s.last()),
    ensures
        trim(s) == s,
{
    assert(lead_ws(s) == 0);
    assert(s.skip(0) =~= s);
    assert(trail_ws(s) == 0);
    assert(s.take(s.len() as int) =~= s);
}

/// Searching past a prefix that lacks `c`.
pub proof fn lemma_find_after(p: Seq<char>, rest: Seq<char>, c: char)
    requires
        forall|i: int| 0 <= i < p.len() ==> p[i] != c,
    ensures
        find_char(p + rest, c) == p.len() + find_char(rest, c),
    decreases p.len(),
{
    if p.len() > 0 {
        assert((p + rest).drop_first() =~= p.drop_first() + rest);
        lemma_find_after(p.drop_first(), rest, c);
    } else {
        assert(p + rest =~= rest);
    }
}

/// The text of a range holds digits and at most one `-`: no comma, no `:`,
/// and no whitespace at its ends.
proof fn lemma_range_text_shape(a: u16, b: u16)
    ensures
        range_text(a, b).len() > 0,
        forall|i: int| 0 <= i < range_text(a, b).len() ==> #[trigger] range_text(a, b)[i] != ',',
        forall|i: int| 0 <= i < range_text(a, b).len() ==> #[trigger] range_text(a, b)[i] != ':',
        !is_ws(range_text(a, b)[0]),
        !is_ws(range_text(a, b).last()),
{
    lemma_dec(a as nat);
    lemma_dec(b as nat);
    let t = range_text(a, b);
    let da = dec(a as nat);
    let db = dec(b as nat);
    assert forall|i: int| 0 <= i < t.len() implies #[trigger] t[i] != ',' && t[i] != ':' by {
        if a == b {
            assert(is_digit(da[i]));
        } else if i < da.len() {
            assert(t[i] == da[i]);
            assert(is_digit(da[i]));
        } else if i > da.len() {
            assert(t[i] == db[i - da.len() - 1]);
            assert(is_digit(db[i - da.len() - 1]));
        }
    }
    assert(is_digit(da[0]));
    assert(is_digit(db[db.len() - 1]));
    assert(is_digit(da[da.len() - 1]));
}

/// Parsing the decimal text of a port number as a port gives the number.
proof fn lemma_port_result_dec(a: u16)
    ensures
        port_result(dec(a as nat)) == Ok::<u16, Failure>(a),
        forall|i: int| 0 <= i < dec(a as nat).len() ==> #[trigger] dec(a as nat)[i] != '-',
{
    lemma_dec(a as nat);
    lemma_parse_dec(a);
    let da = dec(a as nat);
    lemma_trim_id(da);
    assert forall|i: int| 0 <= i < da.len() implies #[trigger] da[i] != '-' by {
        assert(is_digit(da[i]));
    }
}

/// Printing a range and parsing the text back gives the range again.
pub proof fn law_range_text_round_trip(a: u16, b: u16)
    requires
        a <= b,
    ensures
        range_result(range_text(a, b)) == Ok::<(u16, u16), Failure>((a, b)),
{
    lemma_range_text_shape(a, b);
    let s = range_text(a, b);
    lemma_trim_id(s);
    let da = dec(a as nat);
    let db = dec(b as nat);
    lemma_port_result_dec(a);
    lemma_port_result_dec(b);
    if a == b {
        assert(find_char(s, '-') == s.len()) by {
            lemma_find_after(da, Seq::empty(), '-');
            assert(da + Seq::<char>::empty() =~= da);
        }
    } else {
        let k = find_char(s, '-');
        assert(k == da.len() && s.take(k) =~= da && s.skip(k + 1) =~= db) by {
            assert(s =~= da + (seq!['-'] + db));
            lemma_find_after(da, seq!['-'] + db, '-');
        }
        assert(trim(da).len() > 0 && trim(db).len() > 0) by {
            lemma_dec(a as nat);
            lemma_dec(b as nat);
            lemma_parse_dec(a);
            lemma_parse_dec(b);
            lemma_trim_id(da);
            lemma_trim_id(db);
        }
    }
}

/// The endpoints of each range, in order.
pub open spec fn pairs_of(rs: Seq<PortRange>) -> Seq<(u16, u16)> {
    rs.map_values(|r: PortRange| (r.lo(), r.hi()))
}

/// The text of a list, read from the front: the first range, then a comma
/// and the text of the others.
proof fn lemma_list_text_front(rs: Seq<PortRange>)
    requires
        rs.len() > 1,
    ensures
        list_text(rs) == range_text(rs[0].lo(), rs[0].hi()) + seq![','] + list_text(rs.drop_first()),
    decreases rs.len(),
{
    let t0 = range_text(rs[0].lo(), rs[0].hi());
    let tl = range_text(rs.last().lo(), rs.last().hi());
    let f = rs.drop_first();
    let l = rs.drop_last();
    if rs.len() > 2 {
        lemma_list_text_front(l);
        assert(l.drop_first() =~= f.drop_last());
        assert(l[0] == rs[0]);
        assert(f.last() == rs.last());
        assert(list_text(f) == list_text(f.drop_last()) + seq![','] + tl);
        assert(list_text(rs) == list_text(l) + seq![','] + tl);
        assert(list_text(rs) =~= t0 + seq![','] + list_text(f));
    } else {
        assert(l.len() == 1 && l[0] == rs[0]);
        assert(f.len() == 1 && f[0] == rs.last());
        assert(list_text(l) == t0);
        assert(list_text(f) == tl);
    }
}

/// A range text followed by a comma and a list parses as that range followed
/// by the list's ranges.
proof fn lemma_list_result_cons(t0: Seq<char>, rest: Seq<char>, q: (u16, u16), ps: Seq<(u16, u16)>)
    requires
        t0.len() > 0,
        !is_ws(t0[0]),
        !is_ws(t0.last()),
        forall|i: int| 0 <= i < t0.len() ==> #[trigger] t0[i] != ',',
        range_result(t0) == Ok::<(u16, u16), Failure>(q),
        list_result(rest) == Ok::<Seq<(u16, u16)>, Failure>(ps),
    ensures
        list_result(t0 + seq![','] + rest) == Ok::<Seq<(u16, u16)>, Failure>(seq![q] + ps),
{
    let s = t0 + seq![','] + rest;
    assert(s =~= t0 + (seq![','] + rest));
    lemma_find_after(t0, seq![','] + rest, ',');
    let k = find_char(s, ',');
    assert(k == t0.len());
    assert(s.take(k) =~= t0);
    assert(s.skip(k + 1) =~= rest);
    lemma_trim_id(t0);
    assert(item_result(t0) == Ok::<Seq<(u16, u16)>, Failure>(seq![q]));
}

/// A lone range text parses as that range.
proof fn lemma_list_result_single(t0: Seq<char>, q: (u16, u16))
    requires
        t0.len() > 0,
        !is_ws(t0[0]),
        !is_ws(t0.last()),
        forall|i: int| 0 <= i < t0.len() ==> #[trigger] t0[i] != ',',
        range_result(t0) == Ok::<(u16, u16), Failure>(q),
    ensures
        list_result(t0) == Ok::<Seq<(u16, u16)>, Failure>(seq![q]),
{
    lemma_find_after(t0, Seq::empty(), ',');
    assert(t0 + Seq::<char>::empty() =~= t0);
    assert(t0.take(t0.len() as int) =~= t0);
    lemma_trim_id(t0);
    assert(item_result(t0) == Ok::<Seq<(u16, u16)>, Failure>(seq![q]));
}

/// The list text of well-formed ranges parses back to the same ranges.
proof fn lemma_list_round_trip(rs: Seq<PortRange>)
    requires
        rs.len() > 0,
        forall|i: int| 0 <= i < rs.len() ==> (#[trigger] rs[i]).wf(),
    ensures
        list_result(list_text(rs)) == Ok::<Seq<(u16, u16)>, Failure>(pairs_of(rs)),
        list_text(rs).len() > 0,
        !is_ws(list_text(rs)[0]),
        !is_ws(list_text(rs).last()),
    decreases rs.len(),
{
    let r0 = rs[0];
    assert(r0.wf());
    let t0 = range_text(r0.lo(), r0.hi());
    lemma_range_text_shape(r0.lo(), r0.hi());
    law_range_text_round_trip(r0.lo(), r0.hi());
    if rs.len() == 1 {
        lemma_list_result_single(t0, (r0.lo(), r0.hi()));
        assert(list_text(rs) == t0);
        assert(pairs_of(rs) =~= seq![(r0.lo(), r0.hi())]);
    } else {
        let rest = rs.drop_first();
        assert forall|i: int| 0 <= i < rest.len() implies (#[trigger] rest[i]).wf() by {
            assert(rs[i + 1].wf());
        }
        lemma_list_round_trip(rest);
        lemma_list_text_front(rs);
        lemma_list_result_cons(t0, list_text(rest), (r0.lo(), r0.hi()), pairs_of(rest));
        assert(pairs_of(rs) =~= seq![(r0.lo(), r0.hi())] + pairs_of(rest));
        let s = list_text(rs);
        assert(s[0] == t0[0]);
        assert(s.last() == list_text(rest).last());
    }
}

/// Printing a non-empty spec and parsing the text back gives a spec with the
/// same ports, hence (by the uniqueness of the normal form) the same ranges.
pub proof fn law_spec_text_round_trip(rs: Seq<PortRange>)
    requires
        normalized(rs),
        rs.len() > 0,
    ensures
        spec_result(list_text(rs)) == Ok::<Seq<(u16, u16)>, Failure>(pairs_of(rs)),
        pairs_cover(pairs_of(rs)) == cover(rs),
{
    lemma_list_round_trip(rs);
    lemma_trim_id(list_text(rs));
    let ps = pairs_of(rs);
    assert forall|p: int| pairs_cover(ps).contains(p) <==> cover(rs).contains(p) by {
        if pairs_cover(ps).contains(p) {
            let i = choose|i: int| 0 <= i < ps.len() && #[trigger] pair_holds(ps[i], p);
            assert(holds(rs[i], p));
        }
        if cover(rs).contains(p) {
            let i = choose|i: int| 0 <= i < rs.len() && #[trigger] holds(rs[i], p);
            assert(pair_holds(ps[i], p));
        }
    }
    assert(pairs_cover(ps) =~= cover(rs));
}

/// A spec and its complement partition the port space: together they cover
/// every port, they share none, and their sizes add up to 65536.
pub proof fn law_complement_partition(rs: Seq<PortRange>)
    requires
        normalized(rs),
    ensures
        cover(rs) + all_ports().difference(cover(rs)) == all_ports(),
        cover(rs).disjoint(all_ports().difference(cover(rs))),
        all_ports().difference(cover(rs)).finite(),
        cover(rs).len() + all_ports().difference(cover(rs)).len() == 65536,
{
    lemma_cover_len(rs);
    lemma_int_range(0, 65536);
    assert(all_ports() =~= set_int_range(0, 65536));
    lemma_len_difference(all_ports(), cover(rs));
    vstd::set_lib::lemma_len_intersect(all_ports(), cover(rs));
    assert(all_ports().intersect(cover(rs)) =~= cover(rs));
    assert(cover(rs) + all_ports().difference(cover(rs)) =~= all_ports());
    vstd::set_lib::lemma_set_union_finite_iff(cover(rs), all_ports().difference(cover(rs)));
    vstd::set_lib::lemma_set_disjoint_lens(cover(rs), all_ports().difference(cover(rs)));
}

/// The ports a spec lists, in order, are strictly increasing and are exactly
/// the ports it covers; there are as many as its count.
pub proof fn law_port_seq(rs: Seq<PortRange>)
    requires
        normalized(rs),
    ensures
        forall|i: int, j: int|
            0 <= i < j < port_seq(rs).len() ==> port_seq(rs)[i] < port_seq(rs)[j],
        forall|p: int|
            cover(rs).contains(p) <==> exists|i: int|
                0 <= i < port_seq(rs).len() && port_seq(rs)[i] == p,
        port_seq(rs).len() == sum_counts(rs),
    decreases rs.len(),
{
    if rs.len() == 0 {
        assert forall|p: int| !cover(rs).contains(p) by {
            if cover(rs).contains(p) {
                let i = choose|i: int| 0 <= i < rs.len() && #[trigger] holds(rs[i], p);
            }
        }
    } else {
        let pre = rs.drop_last();
        let y = rs.last();
        assert(y.wf());
        lemma_normalized_take(rs, rs.len() - 1);
        assert(pre =~= rs.take(rs.len() - 1));
        law_port_seq(pre);
        let s0 = port_seq(pre);
        let tail = ports_between(y.lo() as int, y.hi() as int);
        let s = port_seq(rs);
        assert(s =~= s0 + tail);
        assert forall|p: int| cover(pre).contains(p) implies p < y.lo() by {
            let i = choose|i: int| 0 <= i < pre.len() && #[trigger] holds(pre[i], p);
            assert(rs[i].hi() + 1 < rs[rs.len() - 1].lo());
        }
        assert forall|i: int| 0 <= i < s0.len() implies s0[i] < y.lo() by {
            assert(cover(pre).contains(s0[i] as int));
        }
        assert forall|i: int, j: int| 0 <= i < j < s.len() implies s[i] < s[j] by {
            if j < s0.len() {
            } else if i < s0.len() {
                assert(s[i] == s0[i]);
            } else {
                assert(s[i] == tail[i - s0.len()]);
                assert(s[j] == tail[j - s0.len()]);
            }
        }
        assert forall|p: int| cover(rs).contains(p) <==> exists|i: int| 0 <= i < s.len() && s[i] == p by {
            if cover(rs).contains(p) {
                let i = choose|i: int| 0 <= i < rs.len() && #[trigger] holds(rs[i], p);
                if i < pre.len() {
                    assert(holds(pre[i], p));
                    assert(cover(pre).contains(p));
                    let k = choose|k: int| 0 <= k < s0.len() && s0[k] == p;
                    assert(s[k] == p);
                } else {
                    let k = p - y.lo();
                    assert(s[s0.len() + k] == p);
                }
            }
            if exists|i: int| 0 <= i < s.len() && s[i] == p {
                let i = choose|i: int| 0 <= i < s.len() && s[i] == p;
                if i < s0.len() {
                    assert(s0[i] == p);
                    assert(cover(pre).contains(p));
                    let k = choose|k: int| 0 <= k < pre.len() && #[trigger] holds(pre[k], p);
                    assert(holds(rs[k], p));
                } else {
                    assert(holds(rs[rs.len() - 1], p));
                }
            }
        }
    }
}

/// The texts of the ranges, in order.
pub open spec fn texts_of(rs: Seq<PortRange>) -> Seq<Seq<char>> {
    rs.map_values(|r: PortRange| range_text(r.lo(), r.hi()))
}

/// The list text of some ranges is their texts joined by commas.
proof fn lemma_join_texts(rs: Seq<PortRange>)
    ensures
        join(texts_of(rs)) == list_text(rs),
    decreases rs.len(),
{
    if rs.len() > 1 {
        lemma_join_texts(rs.drop_last());
        assert(texts_of(rs).drop_last() =~= texts_of(rs.drop_last()));
    } else if rs.len() == 1 {
        assert(texts_of(rs)[0] == range_text(rs[0].lo(), rs[0].hi()));
    } else {
        assert(texts_of(rs) =~= Seq::<Seq<char>>::empty());
    }
}

/// The parts a chunk adds on each side when it goes to protocol `p`.
pub open spec fn side_parts(p: Proto, body: Seq<char>) -> (Seq<Seq<char>>, Seq<Seq<char>>) {
    if p == Proto::Tcp {
        (seq![body], Seq::empty())
    } else {
        (Seq::empty(), seq![body])
    }
}

/// A range text as a chunk keeps the current protocol and becomes a part.
proof fn lemma_chunk_plain(a: u16, b: u16, cur: Proto)
    ensures
        chunk_step(range_text(a, b), cur) == (cur, side_parts(cur, range_text(a, b)).0, side_parts(
            cur,
            range_text(a, b),
        ).1),
{
    lemma_range_text_shape(a, b);
    let c = range_text(a, b);
    lemma_find_after(c, Seq::empty(), ':');
    assert(c + Seq::<char>::empty() =~= c);
}

/// The protocols that a one-letter prefix names.
proof fn lemma_proto_letters()
    ensures
        proto_result(seq!['T']) == Ok::<Proto, Failure>(Proto::Tcp),
        proto_result(seq!['U']) == Ok::<Proto, Failure>(Proto::Udp),
        encode_utf8(seq!['T']).len() == 1,
        encode_utf8(seq!['U']).len() == 1,
{
    reveal_strlit("tcp");
    reveal_strlit("TCP");
    reveal_strlit("Tcp");
    reveal_strlit("t");
    reveal_strlit("T");
    reveal_strlit("udp");
    reveal_strlit("UDP");
    reveal_strlit("Udp");
    reveal_strlit("u");
    reveal_strlit("U");
    lemma_trim_id(seq!['T']);
    lemma_trim_id(seq!['U']);
    assert(seq!['T'] =~= "T"@);
    assert(seq!['U'] =~= "U"@);
    assert(seq!['T'].drop_first() =~= Seq::<char>::empty());
    assert(seq!['U'].drop_first() =~= Seq::<char>::empty());
    assert(('T' as u32) == 84);
    assert(('U' as u32) == 85);
    assert(encode_utf8(Seq::<char>::empty()).len() == 0);
    assert(encode_scalar(84u32).len() == 1);
    assert(encode_scalar(85u32).len() == 1);
    assert(encode_utf8(seq!['T']) == encode_scalar(84u32) + encode_utf8(Seq::<char>::empty()));
    assert(encode_utf8(seq!['U']) == encode_scalar(85u32) + encode_utf8(Seq::<char>::empty()));
}

/// A `T:` or `U:` prefix on a range text switches to that protocol, and the
/// range text becomes a part.
proof fn lemma_chunk_tagged(p: Proto, a: u16, b: u16, cur: Proto)
    ensures
        chunk_step(tag_of(p) + range_text(a, b), cur) == (p, side_parts(p, range_text(a, b)).0, side_parts(
            p,
            range_text(a, b),
        ).1),
{
    lemma_range_text_shape(a, b);
    lemma_proto_letters();
    let r = range_text(a, b);
    let c = tag_of(p) + r;
    let letter = if p == Proto::Tcp { 'T' } else { 'U' };
    assert(c =~= seq![letter] + (seq![':'] + r));
    lemma_find_after(seq![letter], seq![':'] + r, ':');
    assert(find_char(c, ':') == 1);
    assert(c.take(1) =~= seq![letter]);
    assert(c.skip(2) =~= r);
    lemma_trim_id(r);
}

/// The two-character tag that selects a protocol.
pub open spec fn tag_of(p: Proto) -> Seq<char> {
    if p == Proto::Tcp {
        seq!['T', ':']
    } else {
        seq!['U', ':']
    }
}

/// The protocol a list's first chunk selects: its tag's, else the current.
pub open spec fn proto_of(pre: Option<Proto>, cur: Proto) -> Proto {
    match pre {
        Some(q) => q,
        None => cur,
    }
}

/// The tag in front of a list's first range, if any.
pub open spec fn lead_of(pre: Option<Proto>) -> Seq<char> {
    match pre {
        Some(q) => tag_of(q),
        None => Seq::empty(),
    }
}

/// One step of `tagged_parts`: a comma-free chunk, then either nothing or
/// a comma and the rest.
proof fn lemma_parts_step(c: Seq<char>, tail: Seq<char>, cur: Proto)
    requires
        forall|i: int| 0 <= i < c.len() ==> #[trigger] c[i] != ',',
        tail.len() == 0 || tail[0] == ',',
    ensures
        tagged_parts(c + tail, cur) == ({
            let st = chunk_step(trim(c), cur);
            if tail.len() == 0 {
                (st.1, st.2)
            } else {
                let r = tagged_parts(tail.drop_first(), st.0);
                (st.1 + r.0, st.2 + r.1)
            }
        }),
{
    let s = c + tail;
    lemma_find_after(c, tail, ',');
    let k = find_char(s, ',');
    if tail.len() == 0 {
        assert(find_char(tail, ',') == 0);
        assert(k == s.len());
        assert(s.take(k) =~= c);
    } else {
        assert(find_char(tail, ',') == 0);
        assert(k == c.len());
        assert(s.take(k) =~= c);
        assert(s.skip(k + 1) =~= tail.drop_first());
    }
}

/// The first chunk of a (possibly tagged) list text: comma-free, its own
/// trim, and selecting protocol `p` with the first range text as a part.
proof fn lemma_first_chunk(pre: Option<Proto>, r0: PortRange, cur: Proto)
    requires
        r0.wf(),
    ensures
        ({
            let p = proto_of(pre, cur);
            let lead = lead_of(pre);
            let t0 = range_text(r0.lo(), r0.hi());
            let c = lead + t0;
            &&& forall|i: int| 0 <= i < c.len() ==> #[trigger] c[i] != ','
            &&& trim(c) == c
            &&& chunk_step(c, cur) == (p, side_parts(p, t0).0, side_parts(p, t0).1)
        }),
{
    let lead = lead_of(pre);
    let t0 = range_text(r0.lo(), r0.hi());
    lemma_range_text_shape(r0.lo(), r0.hi());
    let c = lead + t0;
    assert forall|i: int| 0 <= i < c.len() implies #[trigger] c[i] != ',' by {
        if i >= lead.len() {
            assert(c[i] == t0[i - lead.len()]);
        }
    }
    assert(c.last() == t0.last());
    if lead.len() > 0 {
        assert(c[0] == lead[0]);
    } else {
        assert(c[0] == t0[0]);
    }
    lemma_trim_id(c);
    match pre {
        Some(q) => lemma_chunk_tagged(q, r0.lo(), r0.hi(), cur),
        None => {
            lemma_chunk_plain(r0.lo(), r0.hi(), cur);
            assert(c =~= t0);
        },
    }
}

/// What the chunks of a list text (after an optional tag on its first
/// range) contribute, followed by whatever `z` holds after a comma.
#[verifier::rlimit(100)]
proof fn lemma_parts_list(pre: Option<Proto>, rs: Seq<PortRange>, z: Seq<char>, cur: Proto)
    requires
        rs.len() > 0,
        forall|i: int| 0 <= i < rs.len() ==> (#[trigger] rs[i]).wf(),
        z.len() == 0 || z[0] == ',',
    ensures
        ({
            let p = proto_of(pre, cur);
            let lead = lead_of(pre);
            let rest = if z.len() == 0 {
                (Seq::<Seq<char>>::empty(), Seq::<Seq<char>>::empty())
            } else {
                tagged_parts(z.drop_first(), p)
            };
            tagged_parts(lead + list_text(rs) + z, cur) == (
                (if p == Proto::Tcp { texts_of(rs) } else { Seq::empty() }) + rest.0,
                (if p == Proto::Udp { texts_of(rs) } else { Seq::empty() }) + rest.1,
            )
        }),
    decreases rs.len(),
{
    let p = proto_of(pre, cur);
    let lead = lead_of(pre);
    let e = Seq::<Seq<char>>::empty();
    let rest = if z.len() == 0 { (e, e) } else { tagged_parts(z.drop_first(), p) };
    let r0 = rs[0];
    assert(r0.wf());
    let t0 = range_text(r0.lo(), r0.hi());
    lemma_first_chunk(pre, r0, cur);
    let c = lead + t0;
    let rest_rs = rs.drop_first();
    assert(texts_of(rs) =~= seq![t0] + texts_of(rest_rs));
    if rs.len() > 1 {
        lemma_list_text_front(rs);
        let tail = seq![','] + (list_text(rest_rs) + z);
        assert(lead + list_text(rs) + z =~= c + tail);
        lemma_parts_step(c, tail, cur);
        assert(tail.drop_first() =~= list_text(rest_rs) + z);
        assert forall|i: int| 0 <= i < rest_rs.len() implies (#[trigger] rest_rs[i]).wf() by {
            assert(rs[i + 1].wf());
        }
        lemma_parts_list(None, rest_rs, z, p);
        assert(Seq::<char>::empty() + list_text(rest_rs) + z =~= list_text(rest_rs) + z);
        if p == Proto::Tcp {
            assert(seq![t0] + (texts_of(rest_rs) + rest.0) =~= texts_of(rs) + rest.0);
            assert(e + (e + rest.1) =~= e + rest.1);
        } else {
            assert(seq![t0] + (texts_of(rest_rs) + rest.1) =~= texts_of(rs) + rest.1);
            assert(e + (e + rest.0) =~= e + rest.0);
        }
    } else {
        assert(list_text(rs) == t0);
        assert(texts_of(rest_rs) =~= e);
        assert(lead + list_text(rs) + z =~= c + z);
        lemma_parts_step(c, z, cur);
        if z.len() == 0 {
            assert(side_parts(p, t0).0 =~= (if p == Proto::Tcp { texts_of(rs) } else { e }) + rest.0);
            assert(side_parts(p, t0).1 =~= (if p == Proto::Udp { texts_of(rs) } else { e }) + rest.1);
        } else {
            assert(seq![t0] + texts_of(rest_rs) =~= seq![t0]);
        }
    }
}

/// The text of one side of a tagged spec, from its ranges.
pub open spec fn side_of(rs: Seq<PortRange>) -> Option<Seq<char>> {
    if rs.len() == 0 {
        None
    } else {
        Some(list_text(rs))
    }
}

/// Printing a tagged spec with at least one non-empty side and parsing the
/// text back gives the same ranges on each side.
#[verifier::rlimit(40)]
pub proof fn law_tagged_text_round_trip(tcp: Seq<PortRange>, udp: Seq<PortRange>)
    requires
        normalized(tcp),
        normalized(udp),
        tcp.len() > 0 || udp.len() > 0,
    ensures
        tagged_result(tagged_text(side_of(tcp), side_of(udp))) == Ok::<
            (Seq<(u16, u16)>, Seq<(u16, u16)>),
            Failure,
        >((pairs_of(tcp), pairs_of(udp))),
{
    let s = tagged_text(side_of(tcp), side_of(udp));
    let e = Seq::<Seq<char>>::empty();
    if tcp.len() > 0 {
        lemma_list_round_trip(tcp);
        law_spec_text_round_trip(tcp);
        lemma_join_texts(tcp);
    }
    if udp.len() > 0 {
        lemma_list_round_trip(udp);
        law_spec_text_round_trip(udp);
        lemma_join_texts(udp);
    }
    let parts = if tcp.len() > 0 && udp.len() > 0 {
        let b = tag_of(Proto::Udp) + list_text(udp);
        assert(s =~= tag_of(Proto::Tcp) + list_text(tcp) + (seq![','] + b));
        lemma_parts_list(Some(Proto::Tcp), tcp, seq![','] + b, Proto::Tcp);
        assert((seq![','] + b).drop_first() =~= b);
        lemma_parts_list(Some(Proto::Udp), udp, Seq::empty(), Proto::Tcp);
        assert(b + Seq::<char>::empty() =~= b);
        assert(s[0] == 'T');
        assert(s.last() == list_text(udp).last());
        (texts_of(tcp), texts_of(udp))
    } else if tcp.len() > 0 {
        assert(s =~= tag_of(Proto::Tcp) + list_text(tcp) + Seq::<char>::empty());
        lemma_parts_list(Some(Proto::Tcp), tcp, Seq::empty(), Proto::Tcp);
        assert(s[0] == 'T');
        assert(s.last() == list_text(tcp).last());
        assert(udp =~= Seq::<PortRange>::empty());
        assert(texts_of(udp) =~= e);
        (texts_of(tcp), e)
    } else {
        assert(s =~= tag_of(Proto::Udp) + list_text(udp) + Seq::<char>::empty());
        lemma_parts_list(Some(Proto::Udp), udp, Seq::empty(), Proto::Tcp);
        assert(s[0] == 'U');
        assert(s.last() == list_text(udp).last());
        assert(tcp =~= Seq::<PortRange>::empty());
        assert(texts_of(tcp) =~= e);
        (e, texts_of(udp))
    };
    assert(tagged_parts(s, Proto::Tcp) == parts);
    lemma_trim_id(s);
    assert(pairs_of(Seq::<PortRange>::empty()) =~= Seq::<(u16, u16)>::empty());
}

/// The texts of the pairs `(lo, hi)`, first to last, joined by commas.
pub open spec fn pairs_text(ps: Seq<(u16, u16)>) -> Seq<char>
    decreases ps.len(),
{
    if ps.len() == 0 {
        Seq::empty()
    } else if ps.len() == 1 {
        range_text(ps[0].0, ps[0].1)
    } else {
        range_text(ps[0].0, ps[0].1) + seq![','] + pairs_text(ps.drop_first())
    }
}

/// Every pair runs upwards.
pub open spec fn pairs_wf(ps: Seq<(u16, u16)>) -> bool {
    forall|i: int| 0 <= i < ps.len() ==> (#[trigger] ps[i]).0 <= ps[i].1
}

/// The text of upward pairs, followed by a comma and a list, parses as those
/// pairs followed by the list's ranges; alone, as those pairs.
proof fn lemma_pairs_list(g: Seq<(u16, u16)>, rest: Seq<char>, ps: Seq<(u16, u16)>)
    requires
        g.len() > 0,
        pairs_wf(g),
    ensures
        list_result(pairs_text(g)) == Ok::<Seq<(u16, u16)>, Failure>(g),
        list_result(rest) == Ok::<Seq<(u16, u16)>, Failure>(ps) ==> list_result(
            pairs_text(g) + seq![','] + rest,
        ) == Ok::<Seq<(u16, u16)>, Failure>(g + ps),
    decreases g.len(),
{
    let q = g[0];
    let t0 = range_text(q.0, q.1);
    lemma_range_text_shape(q.0, q.1);
    law_range_text_round_trip(q.0, q.1);
    if g.len() == 1 {
        lemma_list_result_single(t0, q);
        assert(g =~= seq![q]);
        if list_result(rest) == Ok::<Seq<(u16, u16)>, Failure>(ps) {
            lemma_list_result_cons(t0, rest, q, ps);
        }
    } else {
        let g1 = g.drop_first();
        assert(pairs_wf(g1)) by {
            assert forall|i: int| 0 <= i < g1.len() implies (#[trigger] g1[i]).0 <= g1[i].1 by {
                assert(g1[i] == g[i + 1]);
            }
        }
        lemma_pairs_list(g1, rest, ps);
        assert(g =~= seq![q] + g1);
        lemma_list_result_cons(t0, pairs_text(g1), q, g1);
        if list_result(rest) == Ok::<Seq<(u16, u16)>, Failure>(ps) {
            lemma_list_result_cons(t0, pairs_text(g1) + seq![','] + rest, q, g1 + ps);
            assert(pairs_text(g) + seq![','] + rest =~= t0 + seq![','] + (pairs_text(g1) + seq![','] + rest));
            assert(seq![q] + (g1 + ps) =~= g + ps);
        }
    }
}

/// Texts joined by commas, first to last.
pub open spec fn joined(ts: Seq<Seq<char>>) -> Seq<char>
    decreases ts.len(),
{
    if ts.len() == 0 {
        Seq::empty()
    } else if ts.len() == 1 {
        ts[0]
    } else {
        ts[0] + seq![','] + joined(ts.drop_first())
    }
}

/// `t` is the text of the upward pairs `g`, of which there are some.
pub open spec fn group_spells(t: Seq<char>, g: Seq<(u16, u16)>) -> bool {
    &&& t == pairs_text(g)
    &&& g.len() > 0
    &&& pairs_wf(g)
}

/// A list written as groups, each the text of some upward pairs, parses as
/// all those pairs, group after group.
pub proof fn lemma_groups_parse(ts: Seq<Seq<char>>, gs: Seq<Seq<(u16, u16)>>)
    requires
        ts.len() == gs.len(),
        gs.len() > 0,
        forall|k: int| 0 <= k < gs.len() ==> #[trigger] group_spells(ts[k], gs[k]),
    ensures
        list_result(joined(ts)) == Ok::<Seq<(u16, u16)>, Failure>(gs.flatten()),
    decreases gs.len(),
{
    assert(group_spells(ts[0], gs[0]));
    let rt = ts.drop_first();
    let rg = gs.drop_first();
    if gs.len() == 1 {
        lemma_pairs_list(gs[0], Seq::empty(), Seq::empty());
        gs.lemma_flatten_one_element();
    } else {
        assert forall|k: int| 0 <= k < rg.len() implies #[trigger] group_spells(rt[k], rg[k]) by {
            assert(rt[k] == ts[k + 1]);
            assert(rg[k] == gs[k + 1]);
            assert(group_spells(ts[k + 1], gs[k + 1]));
        }
        lemma_groups_parse(rt, rg);
        lemma_pairs_list(gs[0], joined(rt), rg.flatten());
    }
}

/// A list that parses as pairs, with no whitespace at its ends, parses as a
/// spec to the same pairs when there are any.
pub proof fn lemma_spec_of_list(s: Seq<char>, ps: Seq<(u16, u16)>)
    requires
        s.len() > 0,
        !is_ws(s[0]),
        !is_ws(s.last()),
        list_result(s) == Ok::<Seq<(u16, u16)>, Failure>(ps),
        ps.len() > 0,
    ensures
        spec_result(s) == Ok::<Seq<(u16, u16)>, Failure>(ps),
{
    lemma_trim_id(s);
}

/// Every pair of the flattened groups starts at `m` or later, where every
/// pair of every group does.
pub proof fn lemma_flatten_lows(gs: Seq<Seq<(u16, u16)>>, m: int)
    requires
        forall|j: int, k: int| 0 <= j < gs.len() && 0 <= k < gs[j].len() ==> m <= (#[trigger] gs[j][k]).0,
    ensures
        forall|i: int| 0 <= i < gs.flatten().len() ==> m <= (#[trigger] gs.flatten()[i]).0,
    decreases gs.len(),
{
    if gs.len() > 0 {
        let r = gs.drop_first();
        assert forall|j: int, k: int| 0 <= j < r.len() && 0 <= k < r[j].len() implies m <= (
        #[trigger] r[j][k]).0 by {
            assert(r[j] == gs[j + 1]);
        }
        lemma_flatten_lows(r, m);
        let f = gs.flatten();
        assert(f == gs[0] + r.flatten());
        assert forall|i: int| 0 <= i < f.len() implies m <= (#[trigger] f[i]).0 by {
            if i < gs[0].len() {
                assert(f[i] == gs[0][i]);
            } else {
                assert(f[i] == r.flatten()[i - gs[0].len()]);
            }
        }
    }
}

/// In its default mode the command lists one line per port, in ascending
/// order (descending with `reverse`), and stops after `limit` lines unless
/// `limit` is 0, with or without `reverse`.
pub proof fn law_listing(opts: Options, rs: Seq<PortRange>)
    requires
        normalized(rs),
        opts.contains is None,
        !opts.count,
        !opts.ranges,
        !opts.json,
    ensures
        port_seq(rs).len() == cover(rs).len(),
        forall|i: int, j: int| 0 <= i < j < port_seq(rs).len() ==> port_seq(rs)[i] < port_seq(rs)[j],
        rendered(opts, rs, cover(rs)) is Print,
        rendered(opts, rs, cover(rs))->Print_0.len() == if opts.limit != 0 && (opts.limit as int)
            < cover(rs).len() {
            opts.limit as int
        } else {
            cover(rs).len() as int
        },
        forall|i: int|
            0 <= i < rendered(opts, rs, cover(rs))->Print_0.len() ==> #[trigger] rendered(
                opts,
                rs,
                cover(rs),
            )->Print_0[i] == port_line(
                if opts.reverse {
                    port_seq(rs)[port_seq(rs).len() - 1 - i]
                } else {
                    port_seq(rs)[i]
                },
                opts.resolve,
            ),
{
    law_port_seq(rs);
    lemma_cover_len(rs);
    let ps = port_seq(rs);
    if opts.reverse {
        assert(ps.reverse().len() == ps.len());
    }
}

/// The ports the command works on are the base ports (the preset's when one
/// is named, else the union of the specs), kept where `--intersect` names
/// them, dropped where `--difference` names them, and then inverted over the
/// port space with `--invert`; these steps are the same whether or not the
/// base came from a preset.
pub proof fn law_combined_ports(
    opts: Options,
    specs: Seq<Seq<char>>,
    base: Set<int>,
    keep: Seq<(u16, u16)>,
    drop: Seq<(u16, u16)>,
)
    requires
        opts.preset matches Some(name) ==> preset_choice(name@) is Some && base == (if preset_choice(
            name@,
        )->Some_0 {
            preset_ports(TOP_1000_TCP_LIST@)
        } else {
            preset_ports(TOP_100_TCP_LIST@)
        }),
        opts.preset is None ==> union_all(specs) == Ok::<Set<int>, Seq<char>>(base),
        opts.intersect matches Some(x) ==> spec_result(x@) == Ok::<Seq<(u16, u16)>, Failure>(keep),
        opts.difference matches Some(x) ==> spec_result(x@) == Ok::<Seq<(u16, u16)>, Failure>(drop),
    ensures
        combined(opts, specs) is Ok,
        forall|p: int|
            #[trigger] combined(opts, specs)->Ok_0.contains(p) <==> if opts.invert {
                0 <= p <= 65535 && !(base.contains(p) && (opts.intersect is None || pairs_cover(
                    keep,
                ).contains(p)) && (opts.difference is None || !pairs_cover(drop).contains(p)))
            } else {
                base.contains(p) && (opts.intersect is None || pairs_cover(keep).contains(p)) && (
                opts.difference is None || !pairs_cover(drop).contains(p))
            },
{
}

/// Naming a preset gives the same result as passing its list as the only
/// spec: every other option applies to the preset's ports as usual.
pub proof fn law_preset_as_list(opts: Options, specs: Seq<Seq<char>>)
    requires
        opts.preset matches Some(name) && preset_choice(name@) is Some,
    ensures
        combined(opts, specs) == combined(
            (Options { preset: None, ..opts }),
            seq![
                if preset_choice(opts.preset->Some_0@)->Some_0 {
                    TOP_1000_TCP_LIST@
                } else {
                    TOP_100_TCP_LIST@
                },
            ],
        ),
{
    law_top_1000_extends_top_100();
    let l = if preset_choice(opts.preset->Some_0@)->Some_0 {
        TOP_1000_TCP_LIST@
    } else {
        TOP_100_TCP_LIST@
    };
    let one = seq![l];
    assert(one.drop_last() =~= Seq::<Seq<char>>::empty());
    assert(one.last() == l);
    assert(union_all(Seq::<Seq<char>>::empty()) == Ok::<Set<int>, Seq<char>>(Set::empty()));
    let ps = spec_result(l)->Ok_0;
    assert(Set::<int>::empty() + pairs_cover(ps) =~= pairs_cover(ps));
    assert(union_all(one) == Ok::<Set<int>, Seq<char>>(preset_ports(l)));
}

/// Where a character is first found lies within the text.
proof fn lemma_find_char_bounds(s: Seq<char>, c: char)
    ensures
        0 <= find_char(s, c) <= s.len(),
    decreases s.len(),
{
    if s.len() > 0 && s[0] != c {
        lemma_find_char_bounds(s.drop_first(), c);
    }
}

/// A chunk of a tagged spec whose text before its first `:` (at most four
/// bytes) names a protocol makes that protocol the current one, whatever
/// follows the `:` (blank included) and whatever the current protocol was.
pub proof fn law_prefix_switches(chunk: Seq<char>, cur: Proto)
    requires
        find_char(chunk, ':') < chunk.len(),
        encode_utf8(chunk.take(find_char(chunk, ':'))).len() <= 4,
        proto_result(chunk.take(find_char(chunk, ':'))) is Ok,
    ensures
        chunk_step(chunk, cur).0 == proto_result(chunk.take(find_char(chunk, ':')))->Ok_0,
{
    lemma_find_char_bounds(chunk, ':');
}

/// A chunk that is a bare protocol prefix (nothing but blanks after its
/// `:`) adds no part, and the chunks after it are read with that protocol as
/// the current one.
pub proof fn law_bare_prefix(c: Seq<char>, s: Seq<char>, cur: Proto)
    requires
        forall|i: int| 0 <= i < c.len() ==> c[i] != ',',
        find_char(trim(c), ':') < trim(c).len(),
        encode_utf8(trim(c).take(find_char(trim(c), ':'))).len() <= 4,
        proto_result(trim(c).take(find_char(trim(c), ':'))) is Ok,
        trim(trim(c).skip(find_char(trim(c), ':') + 1)).len() == 0,
    ensures
        tagged_parts(c + seq![','] + s, cur) == tagged_parts(
            s,
            proto_result(trim(c).take(find_char(trim(c), ':')))->Ok_0,
        ),
{
    let w = c + seq![','] + s;
    assert(w =~= c + (seq![','] + s));
    lemma_find_after(c, seq![','] + s, ',');
    assert(w.take(c.len() as int) =~= c);
    assert(w.skip(c.len() as int + 1) =~= s);
    lemma_find_char_bounds(trim(c), ':');
    let st = chunk_step(trim(c), cur);
    assert(st.1 =~= Seq::<Seq<char>>::empty());
    assert(st.2 =~= Seq::<Seq<char>>::empty());
    let rest = tagged_parts(s, st.0);
    assert(st.1 + rest.0 =~= rest.0);
    assert(st.2 + rest.1 =~= rest.1);
}

/// Turning one upper-case ASCII letter of a name into its lower-case letter
/// does not change which service port the name finds, from any row on.
proof fn lemma_port_from_lower(name: Seq<char>, i: int, row: int)
    requires
        0 <= i < name.len(),
        65 <= name[i] as u32 <= 90,
    ensures
        port_from(name.update(i, ((name[i] as u32) + 32) as char), row) == port_from(name, row),
    decreases SERVICES_COUNT - row,
{
    let l = ((name[i] as u32) + 32) as char;
    let m = name.update(i, l);
    if 0 <= row < SERVICES_COUNT {
        let t = table_row(row).0;
        assert(ascii_lower(l) == ascii_lower(name[i]));
        assert(eq_ignore_case(m, t) == eq_ignore_case(name, t)) by {
            if eq_ignore_case(name, t) {
                assert forall|k: int| 0 <= k < m.len() implies ascii_lower(#[trigger] m[k]) == ascii_lower(t[k]) by {
                    assert(ascii_lower(name[k]) == ascii_lower(t[k]));
                }
            }
            if eq_ignore_case(m, t) {
                assert forall|k: int| 0 <= k < name.len() implies ascii_lower(#[trigger] name[k]) == ascii_lower(t[k]) by {
                    assert(ascii_lower(m[k]) == ascii_lower(t[k]));
                }
            }
        }
        lemma_port_from_lower(name, i, row + 1);
    }
}

/// Service names are matched without regard to ASCII case: turning any
/// upper-case ASCII letter of a name (`A` to `Z`) into its lower-case letter
/// finds the same port, so `ZOOKEEPER`, `Zookeeper` and `zookeeper` agree.
pub proof fn law_port_for_ignores_case(name: Seq<char>, i: int)
    requires
        0 <= i < name.len(),
        65 <= name[i] as u32 <= 90,
    ensures
        port_from(name.update(i, ((name[i] as u32) + 32) as char), 0) == port_from(name, 0),
{
    lemma_port_from_lower(name, i, 0);
}

} // verus!
