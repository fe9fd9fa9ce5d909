//! Local counter collection: parsing of per-line counter text and the
//! pure selection / accumulation rules of the native table collectors.
//!
//! Counter text carries two header lines, then one record per interface
//! in the form `name: f0 f1 ...`, where field 0 is received bytes and
//! field 8 is transmitted bytes.  Records are taken best-effort: a line
//! without a colon, with a name outside the selection, or with fewer
//! than 16 fields is skipped without aborting the rest of the batch.

use vstd::prelude::*;
use vstd::string::StrSliceExecFns;
use vstd::wrapping::u64_specs;

use crate::text::{
    chars_of, find_colon, spec_fields, spec_parse_u64_or_zero, spec_split_colon, spec_trim,
    split_fields, field_views, parse_u64_or_zero, trim_range,
};
use crate::types::{stats_views, InterfaceSet, InterfaceStats, InterfaceType, StatView};

verus! {

/// The lines of `s` (separated by `'\n'`), continued from a partial
/// line `cur` already read.
pub open spec fn spec_lines_acc(s: Seq<char>, cur: Seq<char>) -> Seq<Seq<char>>
    decreases s.len(),
{
    if s.len() == 0 {
        seq![cur]
    } else if s[0] == '\n' {
        seq![cur] + spec_lines_acc(s.drop_first(), Seq::empty())
    } else {
        spec_lines_acc(s.drop_first(), cur.push(s[0]))
    }
}

/// The lines of `s`, split at `'\n'`.
pub open spec fn spec_lines(s: Seq<char>) -> Seq<Seq<char>> {
    spec_lines_acc(s, Seq::empty())
}

/// The sample a counter-text line denotes, if any: the trimmed text
/// before the first colon is the interface name, which must be
/// selected; the text after it must split into at least 16 fields, of
/// which field 0 is the receive counter and field 8 the transmit
/// counter.
pub open spec fn spec_parse_line(line: Seq<char>, sel: Set<Seq<char>>) -> Option<StatView> {
    let t = spec_trim(line);
    match spec_split_colon(t) {
        None => None,
        Some(p) => {
            let name = spec_trim(p.0);
            if !sel.contains(name) {
                None
            } else {
                let fs = spec_fields(p.1);
                if fs.len() < 16 {
                    None
                } else {
                    Some(
                        StatView {
                            interface: name,
                            rx_bytes: spec_parse_u64_or_zero(fs[0]),
                            tx_bytes: spec_parse_u64_or_zero(fs[8]),
                            kind: InterfaceType::Net,
                        },
                    )
                }
            }
        },
    }
}

/// The samples denoted by a sequence of counter-text lines, in order,
/// with undecodable lines skipped.
pub open spec fn spec_collect_stats(lines: Seq<Seq<char>>, sel: Set<Seq<char>>) -> Seq<StatView>
    decreases lines.len(),
{
    if lines.len() == 0 {
        Seq::empty()
    } else {
        let rest = spec_collect_stats(lines.drop_first(), sel);
        match spec_parse_line(lines[0], sel) {
            None => rest,
            Some(v) => seq![v] + rest,
        }
    }
}

/// A line sequence with its two header lines removed.
pub open spec fn spec_skip_headers(lines: Seq<Seq<char>>) -> Seq<Seq<char>> {
    if lines.len() <= 2 {
        Seq::empty()
    } else {
        lines.skip(2)
    }
}

/// The samples denoted by a whole counter text: its lines after the two
/// header lines, parsed best-effort.
pub open spec fn spec_parse_net_dev(s: Seq<char>, sel: Set<Seq<char>>) -> Seq<StatView> {
    spec_collect_stats(spec_skip_headers(spec_lines(s)), sel)
}

/// Appending a line appends whatever that line denotes.
proof fn lemma_collect_snoc(lines: Seq<Seq<char>>, l: Seq<char>, sel: Set<Seq<char>>)
    ensures
        spec_collect_stats(lines.push(l), sel) == spec_collect_stats(lines, sel) + (
        match spec_parse_line(l, sel) {
            None => Seq::<StatView>::empty(),
            Some(v) => seq![v],
        }),
    decreases lines.len(),
{
    if lines.len() == 0 {
        reveal_with_fuel(spec_collect_stats, 2);
        assert(lines.push(l)[0] == l);
        assert(lines.push(l).drop_first() =~= Seq::<Seq<char>>::empty());
        match spec_parse_line(l, sel) {
            None => {
                assert(spec_collect_stats(lines.push(l), sel) =~= spec_collect_stats(lines, sel)
                    + Seq::<StatView>::empty());
            },
            Some(v) => {
                assert(spec_collect_stats(lines.push(l), sel) =~= spec_collect_stats(lines, sel)
                    + seq![v]);
            },
        }
    } else {
        assert(lines.push(l)[0] == lines[0]);
        assert(lines.push(l).drop_first() =~= lines.drop_first().push(l));
        lemma_collect_snoc(lines.drop_first(), l, sel);
        match spec_parse_line(l, sel) {
            None => {
                assert(spec_collect_stats(lines.push(l), sel) =~= spec_collect_stats(lines, sel)
                    + Seq::<StatView>::empty());
            },
            Some(v) => {
                assert(spec_collect_stats(lines.push(l), sel) =~= spec_collect_stats(lines, sel)
                    + seq![v]);
            },
        }
    }
}

/// Parses one line, `cs[a..b)`, of counter text.
fn parse_line_range(
    content: &str,
    cs: &Vec<char>,
    a: usize,
    b: usize,
    selected: &InterfaceSet,
) -> (r: Option<InterfaceStats>)
    requires
        cs@ == content@,
        a <= b <= cs@.len(),
    ensures
        match r {
            Some(st) => spec_parse_line(cs@.subrange(a as int, b as int), selected@) == Some(st@),
            None => spec_parse_line(cs@.subrange(a as int, b as int), selected@) is None,
        },
{
    let (lo, hi) = trim_range(cs, a, b);
    match find_colon(cs, lo, hi) {
        None => None,
        Some(c) => {
            let (nlo, nhi) = trim_range(cs, lo, c);
            let name_slice = content.substring_char(nlo, nhi);
            let name = name_slice.to_owned();
            if !selected.contains(&name) {
                None
            } else {
                let fields = split_fields(cs, c + 1, hi);
                if fields.len() < 16 {
                    None
                } else {
                    let rx = parse_u64_or_zero(&fields[0]);
                    let tx = parse_u64_or_zero(&fields[8]);
                    proof {
                        assert(field_views(fields@)[0] == fields@[0]@);
                        assert(field_views(fields@)[8] == fields@[8]@);
                    }
                    Some(
                        InterfaceStats {
                            interface: name,
                            rx_bytes: rx,
                            tx_bytes: tx,
                            kind: InterfaceType::Net,
                        },
                    )
                }
            }
        },
    }
}

/// Parses a whole counter text against the current selection: two
/// header lines are skipped, every remaining line yields at most one
/// local sample, and malformed lines are skipped without aborting the
/// batch.
pub fn parse_net_dev(content: &str, selected: &InterfaceSet) -> (res: Vec<InterfaceStats>)
    ensures
        stats_views(res@) == spec_parse_net_dev(content@, selected@),
{
    let cs = chars_of(content);
    let n = cs.len();
    let mut res: Vec<InterfaceStats> = Vec::new();
    let mut line_start: usize = 0;
    let mut line_idx: usize = 0;
    let mut i: usize = 0;
    let ghost mut done: Seq<Seq<char>> = Seq::empty();
    proof {
        assert(content@.subrange(0, n as int) =~= content@);
        assert(done + spec_lines_acc(content@, Seq::empty()) =~= spec_lines_acc(
            content@,
            Seq::empty(),
        ));
        assert(content@.subrange(0, 0) =~= Seq::<char>::empty());
    }
    while i < n
        invariant
            0 <= line_start <= i <= n,
            n == cs@.len(),
            cs@ == content@,
            line_idx == done.len(),
            line_idx <= i,
            spec_lines(content@) == done + spec_lines_acc(
                content@.subrange(i as int, n as int),
                content@.subrange(line_start as int, i as int),
            ),
            done.len() >= 2 ==> stats_views(res@) == spec_collect_stats(
                done.skip(2),
                selected@,
            ),
            done.len() < 2 ==> res@.len() == 0,
        decreases n - i,
    {
        let ghost rest = content@.subrange(i as int, n as int);
        let ghost cur = content@.subrange(line_start as int, i as int);
        proof {
            assert(rest[0] == content@[i as int]);
            assert(rest.drop_first() =~= content@.subrange(i + 1, n as int));
        }
        if cs[i] == '\n' {
            if line_idx >= 2 {
                let ghost res_before = res@;
                let ghost old_collect = spec_collect_stats(done.skip(2), selected@);
                match parse_line_range(content, &cs, line_start, i, selected) {
                    Some(st) => {
                        res.push(st);
                        proof {
                            assert(stats_views(res@) =~= stats_views(res_before) + seq![st@]);
                        }
                    },
                    None => {},
                }
                proof {
                    lemma_collect_snoc(done.skip(2), cur, selected@);
                    assert(old_collect + Seq::<StatView>::empty() =~= old_collect);
                    assert(done.push(cur).skip(2) =~= done.skip(2).push(cur));
                }
            } else {
                proof {
                    if done.len() + 1 == 2 {
                        assert(done.push(cur).skip(2) =~= Seq::<Seq<char>>::empty());
                    }
                    assert(stats_views(res@) =~= Seq::<StatView>::empty());
                }
            }
            proof {
                let done_before = done;
                done = done.push(cur);
                assert(content@.subrange(i + 1, i + 1) =~= Seq::<char>::empty());
                assert((done_before + (seq![cur] + spec_lines_acc(
                    rest.drop_first(),
                    Seq::empty(),
                ))) =~= done + spec_lines_acc(rest.drop_first(), Seq::empty()));
            }
            line_start = i + 1;
            line_idx += 1;
        } else {
            proof {
                assert(cur.push(content@[i as int]) =~= content@.subrange(
                    line_start as int,
                    i + 1,
                ));
            }
        }
        i += 1;
    }
    let ghost cur = content@.subrange(line_start as int, n as int);
    proof {
        assert(content@.subrange(n as int, n as int) =~= Seq::<char>::empty());
    }
    if line_idx >= 2 {
        let ghost res_before = res@;
        let ghost old_collect = spec_collect_stats(done.skip(2), selected@);
        match parse_line_range(content, &cs, line_start, n, selected) {
            Some(st) => {
                res.push(st);
                proof {
                    assert(stats_views(res@) =~= stats_views(res_before) + seq![st@]);
                }
            },
            None => {},
        }
        proof {
            lemma_collect_snoc(done.skip(2), cur, selected@);
            assert(old_collect + Seq::<StatView>::empty() =~= old_collect);
            assert(done.push(cur).skip(2) =~= done.skip(2).push(cur));
            assert(spec_skip_headers(done.push(cur)) == done.push(cur).skip(2));
            assert(spec_lines(content@) =~= done.push(cur));
        }
    } else {
        proof {
            assert(spec_lines(content@) =~= done.push(cur));
            assert(spec_skip_headers(done.push(cur)) == Seq::<Seq<char>>::empty());
            assert(stats_views(res@) =~= Seq::<StatView>::empty());
        }
    }
    res
}

/// The views of raw `(name, rx, tx)` rows handed over by a native
/// counter source.
pub open spec fn raw_views(rs: Seq<(String, u64, u64)>) -> Seq<(Seq<char>, u64, u64)> {
    rs.map_values(|r: (String, u64, u64)| (r.0@, r.1, r.2))
}

/// The first index carrying `name`, or `-1` if none does.
pub open spec fn find_stat(out: Seq<StatView>, name: Seq<char>) -> int
    decreases out.len(),
{
    if out.len() == 0 {
        -1
    } else if out[0].interface == name {
        0
    } else {
        let r = find_stat(out.drop_first(), name);
        if r == -1 {
            -1
        } else {
            r + 1
        }
    }
}

/// `j` is the first index carrying `name`, so `find_stat` returns it.
proof fn lemma_find_stat_first(out: Seq<StatView>, name: Seq<char>, j: int)
    requires
        0 <= j < out.len(),
        out[j].interface == name,
        forall|l: int| 0 <= l < j ==> out[l].interface != name,
    ensures
        find_stat(out, name) == j,
    decreases j,
{
    if j > 0 {
        let d = out.drop_first();
        assert(forall|l: int| 0 <= l < d.len() ==> #[trigger] d[l] == out[l + 1]);
        lemma_find_stat_first(d, name, j - 1);
    }
}

/// No index carries `name`, so `find_stat` finds nothing.
proof fn lemma_find_stat_none(out: Seq<StatView>, name: Seq<char>)
    requires
        forall|l: int| 0 <= l < out.len() ==> out[l].interface != name,
    ensures
        find_stat(out, name) == -1,
    decreases out.len(),
{
    if out.len() > 0 {
        let d = out.drop_first();
        assert(forall|l: int| 0 <= l < d.len() ==> #[trigger] d[l] == out[l + 1]);
        lemma_find_stat_none(d, name);
    }
}

/// The index of the first sample named `name`, if one exists.
fn find_stat_index(res: &Vec<InterfaceStats>, name: &String) -> (r: Option<usize>)
    ensures
        match r {
            Some(j) => {
                &&& j < res@.len()
                &&& res@[j as int]@.interface == name@
                &&& find_stat(stats_views(res@), name@) == j
            },
            None => find_stat(stats_views(res@), name@) == -1,
        },
{
    let n = res.len();
    let mut i: usize = 0;
    while i < n
        invariant
            0 <= i <= n,
            n == res@.len(),
            forall|l: int| 0 <= l < i ==> res@[l]@.interface != name@,
        decreases n - i,
    {
        if res[i].interface == *name {
            proof {
                lemma_find_stat_first(stats_views(res@), name@, i as int);
            }
            return Some(i);
        }
        i += 1;
    }
    proof {
        lemma_find_stat_none(stats_views(res@), name@);
    }
    None
}

/// One accumulation step: an unselected row is dropped; a selected row
/// is summed (with 64-bit wrapping) into the sample already carrying
/// its name, or opens a new sample.
pub open spec fn spec_acc_step(
    out: Seq<StatView>,
    name: Seq<char>,
    rx: u64,
    tx: u64,
    sel: Set<Seq<char>>,
) -> Seq<StatView> {
    if !sel.contains(name) {
        out
    } else {
        let j = find_stat(out, name);
        if j >= 0 {
            out.update(
                j,
                StatView {
                    interface: out[j].interface,
                    rx_bytes: u64_specs::wrapping_add(out[j].rx_bytes, rx),
                    tx_bytes: u64_specs::wrapping_add(out[j].tx_bytes, tx),
                    kind: out[j].kind,
                },
            )
        } else {
            out.push(StatView { interface: name, rx_bytes: rx, tx_bytes: tx, kind: InterfaceType::Net })
        }
    }
}

/// The samples produced from an address-list walk: the host may report
/// the same interface once per address family, and the counters of the
/// selected duplicates are accumulated into one sample per unique name,
/// in order of first appearance.
pub open spec fn spec_accumulate(
    raw: Seq<(Seq<char>, u64, u64)>,
    sel: Set<Seq<char>>,
) -> Seq<StatView>
    decreases raw.len(),
{
    if raw.len() == 0 {
        Seq::empty()
    } else {
        spec_acc_step(
            spec_accumulate(raw.drop_last(), sel),
            raw.last().0,
            raw.last().1,
            raw.last().2,
            sel,
        )
    }
}

/// Accumulates raw per-address rows into one local sample per unique
/// selected interface name, summing the counters of duplicates.
pub fn accumulate_samples(raw: &Vec<(String, u64, u64)>, selected: &InterfaceSet) -> (res: Vec<
    InterfaceStats,
>)
    ensures
        stats_views(res@) == spec_accumulate(raw_views(raw@), selected@),
{
    let ghost rv = raw_views(raw@);
    let n = raw.len();
    let mut res: Vec<InterfaceStats> = Vec::new();
    let mut i: usize = 0;
    proof {
        assert(rv.take(0) =~= Seq::<(Seq<char>, u64, u64)>::empty());
        assert(stats_views(res@) =~= Seq::<StatView>::empty());
    }
    while i < n
        invariant
            0 <= i <= n,
            n == raw@.len(),
            rv == raw_views(raw@),
            stats_views(res@) == spec_accumulate(rv.take(i as int), selected@),
        decreases n - i,
    {
        let ghost out_before = stats_views(res@);
        let name = &raw[i].0;
        let rx = raw[i].1;
        let tx = raw[i].2;
        if selected.contains(name) {
            match find_stat_index(&res, name) {
                Some(j) => {
                    let nm = res[j].interface.clone();
                    let knd = res[j].kind;
                    let erx = res[j].rx_bytes.wrapping_add(rx);
                    let etx = res[j].tx_bytes.wrapping_add(tx);
                    res[j] = InterfaceStats { interface: nm, rx_bytes: erx, tx_bytes: etx, kind: knd };
                    proof {
                        assert(stats_views(res@) =~= out_before.update(
                            j as int,
                            res@[j as int]@,
                        ));
                    }
                },
                None => {
                    res.push(
                        InterfaceStats {
                            interface: raw[i].0.clone(),
                            rx_bytes: rx,
                            tx_bytes: tx,
                            kind: InterfaceType::Net,
                        },
                    );
                    proof {
                        assert(stats_views(res@) =~= out_before.push(
                            res@[res@.len() - 1]@,
                        ));
                    }
                },
            }
        }
        proof {
            assert(rv.take(i + 1).drop_last() =~= rv.take(i as int));
            assert(rv.take(i + 1).last() == rv[i as int]);
            assert(rv[i as int] == (raw@[i as int].0@, raw@[i as int].1, raw@[i as int].2));
        }
        i += 1;
    }
    proof {
        assert(rv.take(n as int) =~= rv);
    }
    res
}

/// The samples produced from a native interface-table query: one
/// sample per row, in table order; an empty selection keeps every row,
/// a non-empty one only the rows it names.
pub open spec fn spec_filter_rows(
    rows: Seq<(Seq<char>, u64, u64)>,
    sel: Set<Seq<char>>,
) -> Seq<StatView>
    decreases rows.len(),
{
    if rows.len() == 0 {
        Seq::empty()
    } else {
        let rest = spec_filter_rows(rows.drop_last(), sel);
        let r = rows.last();
        if sel.is_empty() || sel.contains(r.0) {
            rest.push(StatView { interface: r.0, rx_bytes: r.1, tx_bytes: r.2, kind: InterfaceType::Net })
        } else {
            rest
        }
    }
}

/// Keeps the interface-table rows the selection asks for; an empty
/// selection means "every interface", not "none".
pub fn filter_table_rows(rows: &Vec<(String, u64, u64)>, selected: &InterfaceSet) -> (res: Vec<
    InterfaceStats,
>)
    ensures
        stats_views(res@) == spec_filter_rows(raw_views(rows@), selected@),
{
    let ghost rv = raw_views(rows@);
    let n = rows.len();
    let mut res: Vec<InterfaceStats> = Vec::new();
    let mut i: usize = 0;
    proof {
        assert(rv.take(0) =~= Seq::<(Seq<char>, u64, u64)>::empty());
        assert(stats_views(res@) =~= Seq::<StatView>::empty());
    }
    while i < n
        invariant
            0 <= i <= n,
            n == rows@.len(),
            rv == raw_views(rows@),
            stats_views(res@) == spec_filter_rows(rv.take(i as int), selected@),
        decreases n - i,
    {
        let ghost out_before = stats_views(res@);
        let keep = selected.is_empty() || selected.contains(&rows[i].0);
        if keep {
            res.push(
                InterfaceStats {
                    interface: rows[i].0.clone(),
                    rx_bytes: rows[i].1,
                    tx_bytes: rows[i].2,
                    kind: InterfaceType::Net,
                },
            );
            proof {
                assert(stats_views(res@) =~= out_before.push(res@[res@.len() - 1]@));
            }
        }
        proof {
            assert(rv.take(i + 1).drop_last() =~= rv.take(i as int));
            assert(rv.take(i + 1).last() == rv[i as int]);
            assert(rv[i as int] == (rows@[i as int].0@, rows@[i as int].1, rows@[i as int].2));
        }
        i += 1;
    }
    proof {
        assert(rv.take(n as int) =~= rv);
    }
    res
}

/// The views of a list of names.
pub open spec fn name_views(ns: Seq<String>) -> Seq<Seq<char>> {
    ns.map_values(|s: String| s@)
}

/// A name list with its empty entries removed, order kept.
pub open spec fn spec_nonempty_names(ns: Seq<Seq<char>>) -> Seq<Seq<char>>
    decreases ns.len(),
{
    if ns.len() == 0 {
        Seq::empty()
    } else {
        let rest = spec_nonempty_names(ns.drop_last());
        if ns.last().len() > 0 {
            rest.push(ns.last())
        } else {
            rest
        }
    }
}

/// Keeps every non-empty interface name reported by the host,
/// unconditionally and ignoring any selection: this feeds a selector,
/// not the sampler.
pub fn filter_interface_names(names: &Vec<String>) -> (res: Vec<String>)
    ensures
        name_views(res@) == spec_nonempty_names(name_views(names@)),
{
    let ghost nv = name_views(names@);
    let n = names.len();
    let mut res: Vec<String> = Vec::new();
    let mut i: usize = 0;
    proof {
        assert(nv.take(0) =~= Seq::<Seq<char>>::empty());
        assert(name_views(res@) =~= Seq::<Seq<char>>::empty());
    }
    while i < n
        invariant
            0 <= i <= n,
            n == names@.len(),
            nv == name_views(names@),
            name_views(res@) == spec_nonempty_names(nv.take(i as int)),
        decreases n - i,
    {
        let ghost out_before = name_views(res@);
        if !names[i].as_str().is_empty() {
            res.push(names[i].clone());
            proof {
                assert(name_views(res@) =~= out_before.push(res@[res@.len() - 1]@));
            }
        }
        proof {
            assert(nv.take(i + 1).drop_last() =~= nv.take(i as int));
            assert(nv.take(i + 1).last() == nv[i as int]);
        }
        i += 1;
    }
    proof {
        assert(nv.take(n as int) =~= nv);
    }
    res
}

/// A line that denotes no sample can be struck into a batch anywhere
/// without changing what the batch denotes: one malformed record never
/// prevents the correct parsing of the others.
pub proof fn lemma_malformed_line_skipped(
    lines: Seq<Seq<char>>,
    k: int,
    bad: Seq<char>,
    sel: Set<Seq<char>>,
)
    requires
        0 <= k <= lines.len(),
        spec_parse_line(bad, sel) is None,
    ensures
        spec_collect_stats(lines.insert(k, bad), sel) == spec_collect_stats(lines, sel),
    decreases lines.len(),
{
    if k == 0 {
        assert(lines.insert(0, bad) =~= seq![bad] + lines);
        assert((seq![bad] + lines)[0] == bad);
        assert((seq![bad] + lines).drop_first() =~= lines);
    } else {
        let ins = lines.insert(k, bad);
        assert(ins[0] == lines[0]);
        assert(ins.drop_first() =~= lines.drop_first().insert(k - 1, bad));
        lemma_malformed_line_skipped(lines.drop_first(), k - 1, bad, sel);
    }
}

/// Every sample a counter-text batch denotes carries a selected name:
/// nothing outside the selection ever reaches the output.
pub proof fn lemma_collect_only_selected(lines: Seq<Seq<char>>, sel: Set<Seq<char>>)
    ensures
        forall|t: int|
            0 <= t < spec_collect_stats(lines, sel).len() ==> sel.contains(
                #[trigger] spec_collect_stats(lines, sel)[t].interface,
            ),
    decreases lines.len(),
{
    if lines.len() > 0 {
        lemma_collect_only_selected(lines.drop_first(), sel);
    }
}

/// Every sample parsed out of a whole counter text carries a selected
/// name.
pub proof fn lemma_parse_net_dev_only_selected(s: Seq<char>, sel: Set<Seq<char>>)
    ensures
        forall|t: int|
            0 <= t < spec_parse_net_dev(s, sel).len() ==> sel.contains(
                #[trigger] spec_parse_net_dev(s, sel)[t].interface,
            ),
{
    lemma_collect_only_selected(spec_skip_headers(spec_lines(s)), sel);
}

} // verus!
