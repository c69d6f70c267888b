//! What the `portspec` command decides: how its inputs combine into one
//! spec and what it prints for each output mode. Reading arguments and
//! standard input, and writing the output, are left to the program.
use vstd::prelude::*;
use vstd::string::{StrSliceExecFns, StringExecFns};

use crate::cover::{all_ports, port_seq};
use crate::error::{debug_quoted, debug_text, message, Failure, ParseError};
use crate::presets::{TOP_1000_TCP_LIST, TOP_100_TCP_LIST, preset, preset_choice, preset_ports};
use crate::proto::{Proto, proto_label};
use crate::services::{name_from, service_for};
use crate::range::PortRange;
use crate::spec::{PortSpec, list_text, pairs_cover, spec_result};
use crate::tagged::{TaggedSpec, tagged_pairs, tagged_result};
use crate::text::{chars_of, dec, push_char, push_dec, string_from_chars, trim, trim_chars};

verus! {

/// The command's options, as given on its command line.
pub struct Options {
    /// Print the number of ports instead of listing them.
    pub count: bool,
    /// Print the normalized range form instead of listing.
    pub ranges: bool,
    /// Emit a JSON summary instead of listing.
    pub json: bool,
    /// Keep only ports also present in this spec.
    pub intersect: Option<String>,
    /// Remove the ports in this spec from the result.
    pub difference: Option<String>,
    /// Invert the result over the whole port space.
    pub invert: bool,
    /// Test whether this port is covered.
    pub contains: Option<u16>,
    /// Stop after listing this many ports (0 = no limit).
    pub limit: u64,
    /// List ports from highest to lowest.
    pub reverse: bool,
    /// Append each listed port's service name.
    pub resolve: bool,
    /// Replace the input specs with a curated preset.
    pub preset: Option<String>,
}

/// What the command ends with for a combined spec.
#[derive(Debug)]
pub enum Outcome {
    /// These lines go to standard output; the exit code is 0.
    Print(Vec<String>),
    /// The answer to `--contains`: exit code 0 when covered, else 1.
    Covered(bool),
    /// A JSON summary of the combined spec goes to standard output.
    Summary,
}

/// The text of an input line from standard input that holds a spec: the line
/// trimmed, unless that is empty or a `#` comment.
pub open spec fn stdin_line(line: Seq<char>) -> Option<Seq<char>> {
    let t = trim(line);
    if t.len() == 0 || t[0] == '#' {
        None
    } else {
        Some(t)
    }
}

/// The spec that an input line from standard input holds, if any.
pub fn spec_from_stdin_line(line: &str) -> (r: Option<String>)
    ensures
        r is Some <==> stdin_line(line@) is Some,
        r matches Some(s) ==> s@ == stdin_line(line@)->Some_0,
{
    let cs = chars_of(line);
    let t = trim_chars(cs.as_slice());
    if t.len() == 0 || t[0] == '#' {
        None
    } else {
        Some(string_from_chars(t))
    }
}

/// The specs that lines read from standard input hold, in order.
pub open spec fn stdin_specs(lines: Seq<Seq<char>>) -> Seq<Seq<char>>
    decreases lines.len(),
{
    if lines.len() == 0 {
        Seq::empty()
    } else {
        let prev = stdin_specs(lines.drop_last());
        match stdin_line(lines.last()) {
            Some(t) => prev.push(t),
            None => prev,
        }
    }
}

/// The command's spec arguments with the first `-` replaced by the specs
/// that standard input holds and every later `-` by nothing (standard input
/// is used up by then); other arguments stay as they are.
pub open spec fn expanded(args: Seq<Seq<char>>, lines: Seq<Seq<char>>) -> Seq<Seq<char>>
    decreases args.len(),
{
    if args.len() == 0 {
        Seq::empty()
    } else {
        let prev = expanded(args.drop_last(), lines);
        let a = args.last();
        if a == "-"@ {
            if args.drop_last().contains("-"@) {
                prev
            } else {
                prev + stdin_specs(lines)
            }
        } else {
            prev.push(a)
        }
    }
}

fn is_dash(a: &String) -> (r: bool)
    ensures
        r == (a@ == "-"@),
{
    proof {
        reveal_strlit("-");
    }
    let s = a.as_str();
    if s.unicode_len() == 1 && s.get_char(0) == '-' {
        assert(a@ =~= "-"@);
        true
    } else {
        false
    }
}

/// The specs of the lines read from standard input, in order; see
/// [`stdin_specs`].
fn stdin_spec_list(lines: &Vec<String>) -> (r: Vec<String>)
    ensures
        texts_view(r@) == stdin_specs(texts_view(lines@)),
{
    let mut out: Vec<String> = Vec::new();
    let mut j: usize = 0;
    while j < lines.len()
        invariant
            j <= lines@.len(),
            texts_view(out@) == stdin_specs(texts_view(lines@).take(j as int)),
        decreases lines@.len() - j,
    {
        let ghost t = texts_view(lines@).take(j + 1);
        assert(t.drop_last() =~= texts_view(lines@).take(j as int));
        assert(t.last() == lines@[j as int]@);
        match spec_from_stdin_line(lines[j].as_str()) {
            Some(x) => {
                out.push(x);
                assert(texts_view(out@) =~= stdin_specs(texts_view(lines@).take(j as int)).push(
                    stdin_line(lines@[j as int]@)->Some_0,
                ));
            },
            None => {},
        }
        j = j + 1;
    }
    assert(texts_view(lines@).take(j as int) =~= texts_view(lines@));
    out
}

/// The spec arguments with each `-` expanded as [`expanded`] says, given
/// the lines that standard input holds.
pub fn expand_specs(args: &Vec<String>, lines: &Vec<String>) -> (r: Vec<String>)
    ensures
        texts_view(r@) == expanded(texts_view(args@), texts_view(lines@)),
{
    let mut out: Vec<String> = Vec::new();
    let mut used = false;
    let mut i: usize = 0;
    while i < args.len()
        invariant
            i <= args@.len(),
            texts_view(out@) == expanded(texts_view(args@).take(i as int), texts_view(lines@)),
            used == texts_view(args@).take(i as int).contains("-"@),
        decreases args@.len() - i,
    {
        let ghost before = texts_view(args@).take(i as int);
        let ghost t = texts_view(args@).take(i + 1);
        assert(t.drop_last() =~= before);
        assert(t.last() == args@[i as int]@);
        if is_dash(&args[i]) {
            if !used {
                let mut more = stdin_spec_list(lines);
                let ghost old_out = out@;
                out.append(&mut more);
                assert(texts_view(out@) =~= texts_view(old_out) + stdin_specs(texts_view(lines@)));
            }
            used = true;
            assert(t.contains("-"@)) by {
                assert(t[i as int] == "-"@);
            }
        } else {
            let a = args[i].clone();
            out.push(a);
            assert(texts_view(out@) =~= expanded(before, texts_view(lines@)).push(args@[i as int]@));
            assert(t.contains("-"@) == before.contains("-"@)) by {
                if t.contains("-"@) {
                    let k = choose|k: int| 0 <= k < t.len() && t[k] == "-"@;
                    if k == i {
                        assert(t[k] == args@[i as int]@);
                    } else {
                        assert(before[k] == t[k]);
                    }
                }
                if before.contains("-"@) {
                    let k = choose|k: int| 0 <= k < before.len() && before[k] == "-"@;
                    assert(t[k] == before[k]);
                }
            }
        }
        i = i + 1;
    }
    assert(texts_view(args@).take(i as int) =~= texts_view(args@));
    out
}

/// The message for an input that failed to parse.
pub open spec fn failure_message(input: Seq<char>, e: Failure) -> Seq<char> {
    "portspec: "@ + debug_text(input) + ": "@ + message(e)
}

/// The message for an unknown preset name.
pub open spec fn preset_message(name: Seq<char>) -> Seq<char> {
    "portspec: unknown preset "@ + debug_text(name) + " (try top-100 / top-1000)"@
}

/// The ports of every spec, united, or the message for the first that fails.
pub open spec fn union_all(specs: Seq<Seq<char>>) -> Result<Set<int>, Seq<char>>
    decreases specs.len(),
{
    if specs.len() == 0 {
        Ok(Set::empty())
    } else {
        match union_all(specs.drop_last()) {
            Err(m) => Err(m),
            Ok(acc) => match spec_result(specs.last()) {
                Err(e) => Err(failure_message(specs.last(), e)),
                Ok(ps) => Ok(acc + pairs_cover(ps)),
            },
        }
    }
}

/// The TCP and UDP ports of every tagged spec, united, or the message for the
/// first that fails.
pub open spec fn tagged_union_all(specs: Seq<Seq<char>>) -> Result<(Set<int>, Set<int>), Seq<char>>
    decreases specs.len(),
{
    if specs.len() == 0 {
        Ok((Set::empty(), Set::empty()))
    } else {
        match tagged_union_all(specs.drop_last()) {
            Err(m) => Err(m),
            Ok(acc) => match tagged_result(specs.last()) {
                Err(e) => Err(failure_message(specs.last(), e)),
                Ok(ps) => Ok((acc.0 + pairs_cover(ps.0), acc.1 + pairs_cover(ps.1))),
            },
        }
    }
}

/// Intersects `acc` with (or, when `intersect` is false, subtracts from it)
/// the ports of an optional spec, or gives the message if that spec fails.
pub open spec fn apply_opt(
    acc: Result<Set<int>, Seq<char>>,
    other: Option<Seq<char>>,
    intersect: bool,
) -> Result<Set<int>, Seq<char>> {
    match acc {
        Err(m) => Err(m),
        Ok(s) => match other {
            None => Ok(s),
            Some(x) => match spec_result(x) {
                Err(e) => Err(failure_message(x, e)),
                Ok(ps) => Ok(
                    if intersect {
                        s.intersect(pairs_cover(ps))
                    } else {
                        s.difference(pairs_cover(ps))
                    },
                ),
            },
        },
    }
}

pub open spec fn opt_view(o: Option<String>) -> Option<Seq<char>> {
    match o {
        Some(s) => Some(s@),
        None => None,
    }
}

pub open spec fn texts_view(specs: Seq<String>) -> Seq<Seq<char>> {
    specs.map_values(|s: String| s@)
}

/// The ports the command works on: the preset or the union of the specs,
/// then the intersection, the difference and the inversion that the options
/// ask for; or the message for the first failure.
pub open spec fn combined(opts: Options, specs: Seq<Seq<char>>) -> Result<Set<int>, Seq<char>> {
    let base = match opts.preset {
        Some(name) => match preset_choice(name@) {
            None => Err(preset_message(name@)),
            Some(big) => Ok(
                if big {
                    preset_ports(TOP_1000_TCP_LIST@)
                } else {
                    preset_ports(TOP_100_TCP_LIST@)
                },
            ),
        },
        None => union_all(specs),
    };
    let i = apply_opt(base, opt_view(opts.intersect), true);
    let d = apply_opt(i, opt_view(opts.difference), false);
    match d {
        Err(m) => Err(m),
        Ok(s) => Ok(if opts.invert { all_ports().difference(s) } else { s }),
    }
}

fn failure_text(input: &String, e: &ParseError) -> (r: String)
    ensures
        r@ == failure_message(input@, e@),
{
    let mut r = "portspec: ".to_owned();
    let q = debug_quoted(input);
    r.append(q.as_str());
    r.append(": ");
    let m = e.to_string();
    r.append(m.as_str());
    r
}

fn preset_text(name: &String) -> (r: String)
    ensures
        r@ == preset_message(name@),
{
    let mut r = "portspec: unknown preset ".to_owned();
    let q = debug_quoted(name);
    r.append(q.as_str());
    r.append(" (try top-100 / top-1000)");
    r
}

/// The union of every spec, or the message for the first that fails to parse.
fn union_specs(specs: &Vec<String>) -> (r: Result<PortSpec, String>)
    ensures
        r is Ok <==> union_all(texts_view(specs@)) is Ok,
        r matches Ok(p) ==> p@ == union_all(texts_view(specs@))->Ok_0,
        r matches Err(m) ==> m@ == union_all(texts_view(specs@))->Err_0,
{
    let mut acc = PortSpec::new();
    let mut i: usize = 0;
    while i < specs.len()
        invariant
            i <= specs@.len(),
            union_all(texts_view(specs@).take(i as int)) == Ok::<Set<int>, Seq<char>>(acc@),
        decreases specs@.len() - i,
    {
        let ghost t = texts_view(specs@).take(i + 1);
        assert(t.drop_last() =~= texts_view(specs@).take(i as int));
        assert(t.last() == specs@[i as int]@);
        match PortSpec::parse(specs[i].as_str()) {
            Ok(p) => {
                acc = acc.union(&p);
            },
            Err(e) => {
                let m = failure_text(&specs[i], &e);
                proof {
                    lemma_union_all_prefix_err(texts_view(specs@), i + 1);
                }
                return Err(m);
            },
        }
        i = i + 1;
    }
    assert(texts_view(specs@).take(i as int) =~= texts_view(specs@));
    Ok(acc)
}

/// A failure in a prefix of the specs is the failure of all of them.
proof fn lemma_union_all_prefix_err(specs: Seq<Seq<char>>, n: int)
    requires
        0 <= n <= specs.len(),
        union_all(specs.take(n)) is Err,
    ensures
        union_all(specs) == union_all(specs.take(n)),
    decreases specs.len() - n,
{
    if n < specs.len() {
        assert(specs.take(n + 1).drop_last() =~= specs.take(n));
        lemma_union_all_prefix_err(specs, n + 1);
    } else {
        assert(specs.take(n) =~= specs);
    }
}

/// A failure in a prefix of the tagged specs is the failure of all of them.
proof fn lemma_tagged_prefix_err(specs: Seq<Seq<char>>, n: int)
    requires
        0 <= n <= specs.len(),
        tagged_union_all(specs.take(n)) is Err,
    ensures
        tagged_union_all(specs) == tagged_union_all(specs.take(n)),
    decreases specs.len() - n,
{
    if n < specs.len() {
        assert(specs.take(n + 1).drop_last() =~= specs.take(n));
        lemma_tagged_prefix_err(specs, n + 1);
    } else {
        assert(specs.take(n) =~= specs);
    }
}

/// Parses an optional spec and combines it into `acc`.
fn apply_option(acc: PortSpec, other: &Option<String>, intersect: bool) -> (r: Result<PortSpec, String>)
    ensures
        r is Ok <==> apply_opt(Ok(acc@), opt_view(*other), intersect) is Ok,
        r matches Ok(p) ==> p@ == apply_opt(Ok(acc@), opt_view(*other), intersect)->Ok_0,
        r matches Err(m) ==> m@ == apply_opt(Ok(acc@), opt_view(*other), intersect)->Err_0,
{
    match other {
        None => Ok(acc),
        Some(x) => match PortSpec::parse(x.as_str()) {
            Ok(p) => if intersect {
                Ok(acc.intersection(&p))
            } else {
                Ok(acc.difference(&p))
            },
            Err(e) => Err(failure_text(x, &e)),
        },
    }
}

/// Combines the command's inputs into the spec it reports on; see
/// [`combined`]. On failure, the message to print on standard error (the
/// exit code is then 2).
pub fn combine(opts: &Options, specs: &Vec<String>) -> (r: Result<PortSpec, String>)
    ensures
        r is Ok <==> combined(*opts, texts_view(specs@)) is Ok,
        r matches Ok(p) ==> p@ == combined(*opts, texts_view(specs@))->Ok_0,
        r matches Err(m) ==> m@ == combined(*opts, texts_view(specs@))->Err_0,
{
    let base = match &opts.preset {
        Some(name) => match preset(name.as_str()) {
            Ok(p) => p,
            Err(_) => {
                return Err(preset_text(name));
            },
        },
        None => union_specs(specs)?,
    };
    let i = apply_option(base, &opts.intersect, true)?;
    let d = apply_option(i, &opts.difference, false)?;
    if opts.invert {
        Ok(d.complement())
    } else {
        Ok(d)
    }
}

/// The union of every tagged spec, or the message for the first that fails
/// to parse.
pub fn combine_tagged(specs: &Vec<String>) -> (r: Result<TaggedSpec, String>)
    ensures
        r is Ok <==> tagged_union_all(texts_view(specs@)) is Ok,
        r matches Ok(t) ==> (t.tcp@, t.udp@) == tagged_union_all(texts_view(specs@))->Ok_0,
        r matches Err(m) ==> m@ == tagged_union_all(texts_view(specs@))->Err_0,
{
    let mut acc = TaggedSpec::new();
    let mut i: usize = 0;
    while i < specs.len()
        invariant
            i <= specs@.len(),
            tagged_union_all(texts_view(specs@).take(i as int)) == Ok::<
                (Set<int>, Set<int>),
                Seq<char>,
            >((acc.tcp@, acc.udp@)),
        decreases specs@.len() - i,
    {
        let ghost t = texts_view(specs@).take(i + 1);
        assert(t.drop_last() =~= texts_view(specs@).take(i as int));
        assert(t.last() == specs@[i as int]@);
        match TaggedSpec::parse(specs[i].as_str()) {
            Ok(p) => {
                acc = acc.union(&p);
            },
            Err(e) => {
                let m = failure_text(&specs[i], &e);
                proof {
                    lemma_tagged_prefix_err(texts_view(specs@), i + 1);
                }
                return Err(m);
            },
        }
        i = i + 1;
    }
    assert(texts_view(specs@).take(i as int) =~= texts_view(specs@));
    Ok(acc)
}

/// The line listing one port: its number, then a tab and its service name
/// (empty when unknown) when names are asked for.
pub open spec fn port_line(p: u16, resolve: bool) -> Seq<char> {
    if resolve {
        dec(p as nat) + seq!['\t'] + match name_from(p, 0) {
            Some(n) => n,
            None => Seq::empty(),
        }
    } else {
        dec(p as nat)
    }
}

/// The ports to list: ascending, or descending when reversed, and no more
/// than `limit` of them unless it is 0.
pub open spec fn listed(ports: Seq<u16>, reverse: bool, limit: u64) -> Seq<u16> {
    let o = if reverse { ports.reverse() } else { ports };
    if limit != 0 && limit < o.len() { o.take(limit as int) } else { o }
}

/// The lines the command prints for a combined spec in its default mode.
pub open spec fn listing(ports: Seq<u16>, opts: Options) -> Seq<Seq<char>> {
    listed(ports, opts.reverse, opts.limit).map_values(|p: u16| port_line(p, opts.resolve))
}

/// `lines` hold the texts `want`, in order.
pub open spec fn lines_are(lines: Seq<String>, want: Seq<Seq<char>>) -> bool {
    &&& lines.len() == want.len()
    &&& forall|i: int| 0 <= i < lines.len() ==> (#[trigger] lines[i])@ == want[i]
}

fn line_for(p: u16, resolve: bool) -> (r: String)
    ensures
        r@ == port_line(p, resolve),
{
    let mut r = String::new();
    push_dec(&mut r, p as u32);
    if resolve {
        push_char(&mut r, '\t');
        match service_for(p) {
            Some(n) => r.append(n),
            None => {},
        }
    }
    r
}

/// The outcome of the command with its lines as character sequences.
pub enum Shown {
    Print(Seq<Seq<char>>),
    Covered(bool),
    Summary,
}

impl View for Outcome {
    type V = Shown;

    open spec fn view(&self) -> Shown {
        match self {
            Outcome::Print(v) => Shown::Print(v@.map_values(|s: String| s@)),
            Outcome::Covered(b) => Shown::Covered(*b),
            Outcome::Summary => Shown::Summary,
        }
    }
}

/// What the command shows for a combined spec with ranges `rs` covering
/// `ports`: the answer to `--contains`, the count, the range form, a JSON
/// summary, or the listing, in that order of precedence.
pub open spec fn rendered(opts: Options, rs: Seq<PortRange>, ports: Set<int>) -> Shown {
    match opts.contains {
        Some(p) => Shown::Covered(ports.contains(p as int)),
        None => if opts.count {
            Shown::Print(seq![dec(ports.len())])
        } else if opts.ranges {
            Shown::Print(seq![list_text(rs)])
        } else if opts.json {
            Shown::Summary
        } else {
            Shown::Print(listing(port_seq(rs), opts))
        },
    }
}

/// What the command ends with for the combined spec `spec`; see [`rendered`].
pub fn render(opts: &Options, spec: &PortSpec) -> (r: Outcome)
    ensures
        r@ == rendered(*opts, spec.rs(), spec@),
{
    if let Some(p) = opts.contains {
        return Outcome::Covered(spec.contains(p));
    }
    if opts.count {
        let mut line = String::new();
        push_dec(&mut line, spec.count());
        let mut v: Vec<String> = Vec::new();
        v.push(line);
        assert(v@.map_values(|s: String| s@) =~= seq![dec(spec@.len())]);
        return Outcome::Print(v);
    }
    if opts.ranges {
        let mut v: Vec<String> = Vec::new();
        v.push(spec.to_string());
        assert(v@.map_values(|s: String| s@) =~= seq![list_text(spec.rs())]);
        return Outcome::Print(v);
    }
    if opts.json {
        return Outcome::Summary;
    }
    let ports = spec.ports();
    let n = ports.len();
    let want: usize = if opts.limit != 0 && (opts.limit as u128) < (n as u128) { opts.limit as usize } else { n };
    let ghost lst = listed(ports@, opts.reverse, opts.limit);
    assert(lst.len() == want);
    let mut v: Vec<String> = Vec::new();
    let mut i: usize = 0;
    while i < want
        invariant
            i <= want,
            want <= n,
            n == ports@.len(),
            lst == listed(ports@, opts.reverse, opts.limit),
            lst.len() == want,
            v@.len() == i,
            forall|j: int| 0 <= j < i ==> (#[trigger] v@[j])@ == port_line(lst[j], opts.resolve),
        decreases want - i,
    {
        let p = if opts.reverse { ports[n - 1 - i] } else { ports[i] };
        assert(p == lst[i as int]);
        v.push(line_for(p, opts.resolve));
        i = i + 1;
    }
    assert(v@.map_values(|s: String| s@) =~= listing(ports@, *opts));
    Outcome::Print(v)
}

/// The lines the command prints in tagged mode: `tcp PORT` for every TCP
/// port, then `udp PORT` for every UDP port, each ascending.
pub open spec fn tagged_line(q: (Proto, u16)) -> Seq<char> {
    proto_label(q.0) + seq![' '] + dec(q.1 as nat)
}

/// The lines for a tagged spec; see [`tagged_line`].
pub fn render_tagged(spec: &TaggedSpec) -> (r: Vec<String>)
    ensures
        lines_are(
            r@,
            tagged_pairs(port_seq(spec.tcp.rs()), port_seq(spec.udp.rs())).map_values(
                |q: (Proto, u16)| tagged_line(q),
            ),
        ),
{
    let t = spec.tcp.ports();
    let u = spec.udp.ports();
    let ghost want = tagged_pairs(t@, u@).map_values(|q: (Proto, u16)| tagged_line(q));
    let mut v: Vec<String> = Vec::new();
    let mut i: usize = 0;
    while i < t.len()
        invariant
            i <= t@.len(),
            want == tagged_pairs(t@, u@).map_values(|q: (Proto, u16)| tagged_line(q)),
            v@.len() == i,
            forall|j: int| 0 <= j < i ==> (#[trigger] v@[j])@ == want[j],
        decreases t@.len() - i,
    {
        let mut line = "tcp".to_owned();
        push_char(&mut line, ' ');
        push_dec(&mut line, t[i] as u32);
        proof {
            reveal_strlit("tcp");
        }
        v.push(line);
        i = i + 1;
    }
    let mut j: usize = 0;
    while j < u.len()
        invariant
            j <= u@.len(),
            t@.len() + j == v@.len(),
            want == tagged_pairs(t@, u@).map_values(|q: (Proto, u16)| tagged_line(q)),
            forall|k: int| 0 <= k < v@.len() ==> (#[trigger] v@[k])@ == want[k],
        decreases u@.len() - j,
    {
        let mut line = "udp".to_owned();
        push_char(&mut line, ' ');
        push_dec(&mut line, u[j] as u32);
        proof {
            reveal_strlit("udp");
        }
        v.push(line);
        j = j + 1;
    }
    v
}

} // verus!
