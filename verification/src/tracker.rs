//! The wraparound-safe delta tracker: turns batches of raw cumulative
//! counter samples into per-interface deltas since the previous
//! observation of each interface name.

use vstd::prelude::*;

use crate::types::{stats_views, InterfaceStats, InterfaceType, StatView};

verus! {

/// Per-interface change of both counters since the previous observation.
#[derive(Clone, Debug)]
pub struct NetDelta {
    pub interface: String,
    pub rx_delta: u64,
    pub tx_delta: u64,
    pub kind: InterfaceType,
}

/// Mathematical image of a [`NetDelta`].
pub ghost struct DeltaView {
    pub interface: Seq<char>,
    pub rx_delta: u64,
    pub tx_delta: u64,
    pub kind: InterfaceType,
}

impl View for NetDelta {
    type V = DeltaView;

    open spec fn view(&self) -> DeltaView {
        DeltaView {
            interface: self.interface@,
            rx_delta: self.rx_delta,
            tx_delta: self.tx_delta,
            kind: self.kind,
        }
    }
}

/// The views of a batch of deltas.
pub open spec fn deltas_views(ds: Seq<NetDelta>) -> Seq<DeltaView> {
    ds.map_values(|d: NetDelta| d@)
}

/// Remembers, for every interface name ever observed, the raw counter
/// pair of its most recent sample.  The view is that mapping.
pub struct DeltaTracker {
    previous: Vec<(String, u64, u64)>,
}

/// The mapping held by an association list; a later entry for the same
/// name supersedes an earlier one.
pub open spec fn map_of(entries: Seq<(String, u64, u64)>) -> Map<Seq<char>, (u64, u64)>
    decreases entries.len(),
{
    if entries.len() == 0 {
        Map::empty()
    } else {
        map_of(entries.drop_last()).insert(
            entries.last().0@,
            (entries.last().1, entries.last().2),
        )
    }
}

impl View for DeltaTracker {
    type V = Map<Seq<char>, (u64, u64)>;

    closed spec fn view(&self) -> Map<Seq<char>, (u64, u64)> {
        map_of(self.previous@)
    }
}

/// A counter delta clamped at zero: a decrease (reboot, counter reset or
/// width wraparound) counts as no increase, never as a huge wrapped value.
pub open spec fn spec_counter_delta(prev: u64, cur: u64) -> u64 {
    if cur >= prev {
        (cur - prev) as u64
    } else {
        0
    }
}

/// The delta batch entry for one sample against the stored mapping: a
/// name never seen before is baselined at zero for both counters.
pub open spec fn spec_delta_for(m: Map<Seq<char>, (u64, u64)>, s: StatView) -> DeltaView {
    if m.contains_key(s.interface) {
        DeltaView {
            interface: s.interface,
            rx_delta: spec_counter_delta(m[s.interface].0, s.rx_bytes),
            tx_delta: spec_counter_delta(m[s.interface].1, s.tx_bytes),
            kind: s.kind,
        }
    } else {
        DeltaView { interface: s.interface, rx_delta: 0, tx_delta: 0, kind: s.kind }
    }
}

/// The stored mapping after a batch has been absorbed: every sample
/// unconditionally replaces the stored pair for its name.
pub open spec fn spec_track_map(m: Map<Seq<char>, (u64, u64)>, ss: Seq<StatView>) -> Map<
    Seq<char>,
    (u64, u64),
>
    decreases ss.len(),
{
    if ss.len() == 0 {
        m
    } else {
        spec_track_map(
            m.insert(ss[0].interface, (ss[0].rx_bytes, ss[0].tx_bytes)),
            ss.drop_first(),
        )
    }
}

/// The delta batch produced for a batch of samples: one delta per sample
/// in the same order, each computed against the mapping as updated by
/// the samples before it.
pub open spec fn spec_track_deltas(m: Map<Seq<char>, (u64, u64)>, ss: Seq<StatView>) -> Seq<
    DeltaView,
>
    decreases ss.len(),
{
    if ss.len() == 0 {
        Seq::empty()
    } else {
        seq![spec_delta_for(m, ss[0])] + spec_track_deltas(
            m.insert(ss[0].interface, (ss[0].rx_bytes, ss[0].tx_bytes)),
            ss.drop_first(),
        )
    }
}

/// If the current counter has not decreased, the delta is the exact
/// difference; if it has decreased, the delta is clamped to zero.
pub proof fn lemma_counter_delta_clamps(prev: u64, cur: u64)
    ensures
        cur >= prev ==> spec_counter_delta(prev, cur) == cur - prev,
        cur < prev ==> spec_counter_delta(prev, cur) == 0,
{
}

/// The first observation of a name yields a zero delta for both
/// counters, whatever the absolute counter values reported.
pub proof fn lemma_first_observation_zero(m: Map<Seq<char>, (u64, u64)>, s: StatView)
    requires
        !m.contains_key(s.interface),
    ensures
        spec_delta_for(m, s).rx_delta == 0,
        spec_delta_for(m, s).tx_delta == 0,
{
}

/// A batch that never mentions `k` leaves the stored entry for `k`
/// exactly as it was.
proof fn lemma_track_map_absent_key(m: Map<Seq<char>, (u64, u64)>, ss: Seq<StatView>, k: Seq<char>)
    requires
        forall|j: int| 0 <= j < ss.len() ==> ss[j].interface != k,
    ensures
        spec_track_map(m, ss).contains_key(k) == m.contains_key(k),
        m.contains_key(k) ==> spec_track_map(m, ss)[k] == m[k],
    decreases ss.len(),
{
    if ss.len() > 0 {
        let d = ss.drop_first();
        assert(forall|j: int| 0 <= j < d.len() ==> #[trigger] d[j] == ss[j + 1]);
        lemma_track_map_absent_key(m.insert(ss[0].interface, (ss[0].rx_bytes, ss[0].tx_bytes)), d, k);
    }
}

/// After a batch is absorbed, the stored pair for every name present in
/// it equals that batch's raw values — those of the name's last sample
/// — whether or not the computed delta was clamped.
pub proof fn lemma_update_stores_raw(m: Map<Seq<char>, (u64, u64)>, ss: Seq<StatView>, i: int)
    requires
        0 <= i < ss.len(),
        forall|j: int| i < j < ss.len() ==> ss[j].interface != ss[i].interface,
    ensures
        spec_track_map(m, ss).contains_key(ss[i].interface),
        spec_track_map(m, ss)[ss[i].interface] == (ss[i].rx_bytes, ss[i].tx_bytes),
    decreases ss.len(),
{
    let d = ss.drop_first();
    assert(forall|j: int| 0 <= j < d.len() ==> #[trigger] d[j] == ss[j + 1]);
    if i == 0 {
        lemma_track_map_absent_key(
            m.insert(ss[0].interface, (ss[0].rx_bytes, ss[0].tx_bytes)),
            d,
            ss[0].interface,
        );
    } else {
        lemma_update_stores_raw(
            m.insert(ss[0].interface, (ss[0].rx_bytes, ss[0].tx_bytes)),
            d,
            i - 1,
        );
    }
}

/// Absorbing one more sample extends the mapping by that sample's raw
/// values and the delta batch by its delta against the mapping so far.
proof fn lemma_track_snoc(m: Map<Seq<char>, (u64, u64)>, ss: Seq<StatView>, s: StatView)
    ensures
        spec_track_map(m, ss.push(s)) == spec_track_map(m, ss).insert(
            s.interface,
            (s.rx_bytes, s.tx_bytes),
        ),
        spec_track_deltas(m, ss.push(s)) == spec_track_deltas(m, ss).push(
            spec_delta_for(spec_track_map(m, ss), s),
        ),
    decreases ss.len(),
{
    if ss.len() == 0 {
        reveal_with_fuel(spec_track_map, 2);
        reveal_with_fuel(spec_track_deltas, 2);
        assert(ss.push(s)[0] == s);
        assert(ss.push(s).drop_first() =~= Seq::<StatView>::empty());
        assert(spec_track_deltas(m, ss.push(s)) =~= spec_track_deltas(m, ss).push(
            spec_delta_for(spec_track_map(m, ss), s),
        ));
    } else {
        let m1 = m.insert(ss[0].interface, (ss[0].rx_bytes, ss[0].tx_bytes));
        assert(ss.push(s)[0] == ss[0]);
        assert(ss.push(s).drop_first() =~= ss.drop_first().push(s));
        lemma_track_snoc(m1, ss.drop_first(), s);
        assert(spec_track_deltas(m, ss.push(s)) =~= spec_track_deltas(m, ss).push(
            spec_delta_for(spec_track_map(m, ss), s),
        ));
    }
}

/// No entry carries `name`, so the mapping has no key `name`.
proof fn lemma_map_of_absent(entries: Seq<(String, u64, u64)>, name: Seq<char>)
    requires
        forall|l: int| 0 <= l < entries.len() ==> entries[l].0@ != name,
    ensures
        !map_of(entries).contains_key(name),
    decreases entries.len(),
{
    if entries.len() > 0 {
        lemma_map_of_absent(entries.drop_last(), name);
    }
}

/// `j` is the last entry carrying its name, so the mapping takes that
/// name to that entry's counter pair.
proof fn lemma_map_of_last_match(entries: Seq<(String, u64, u64)>, j: int)
    requires
        0 <= j < entries.len(),
        forall|l: int| j < l < entries.len() ==> entries[l].0@ != entries[j].0@,
    ensures
        map_of(entries).contains_key(entries[j].0@),
        map_of(entries)[entries[j].0@] == (entries[j].1, entries[j].2),
    decreases entries.len(),
{
    if j < entries.len() - 1 {
        lemma_map_of_last_match(entries.drop_last(), j);
    }
}

/// Replacing the last entry that carries a name, or appending a fresh
/// one, inserts the new pair into the mapping.
proof fn lemma_map_of_update_last(entries: Seq<(String, u64, u64)>, j: int, e: (String, u64, u64))
    requires
        0 <= j < entries.len(),
        forall|l: int| j < l < entries.len() ==> entries[l].0@ != entries[j].0@,
        e.0@ == entries[j].0@,
    ensures
        map_of(entries.update(j, e)) == map_of(entries).insert(e.0@, (e.1, e.2)),
    decreases entries.len(),
{
    if j == entries.len() - 1 {
        assert(entries.update(j, e).drop_last() =~= entries.drop_last());
        assert(entries.update(j, e).last() == e);
        assert(map_of(entries.update(j, e)) =~= map_of(entries).insert(e.0@, (e.1, e.2)));
    } else {
        lemma_map_of_update_last(entries.drop_last(), j, e);
        assert(entries.update(j, e).drop_last() =~= entries.drop_last().update(j, e));
        assert(entries.update(j, e).last() == entries.last());
        assert(map_of(entries.update(j, e)) =~= map_of(entries).insert(e.0@, (e.1, e.2)));
    }
}

impl DeltaTracker {
    /// A tracker that has observed nothing yet.
    pub fn new() -> (t: Self)
        ensures
            t@ == Map::<Seq<char>, (u64, u64)>::empty(),
    {
        DeltaTracker { previous: Vec::new() }
    }

    /// The index of the last stored entry for `name`, if any; that entry
    /// is the one the view maps `name` to.
    fn find_last(&self, name: &String) -> (r: Option<usize>)
        ensures
            match r {
                Some(j) => {
                    &&& j < self.previous@.len()
                    &&& self.previous@[j as int].0@ == name@
                    &&& forall|l: int|
                        j < l < self.previous@.len() ==> self.previous@[l].0@ != name@
                    &&& self@.contains_key(name@)
                    &&& self@[name@] == (self.previous@[j as int].1, self.previous@[j as int].2)
                },
                None => !self@.contains_key(name@),
            },
    {
        let n = self.previous.len();
        let mut j: usize = n;
        while j > 0
            invariant
                0 <= j <= n,
                n == self.previous@.len(),
                forall|l: int| j <= l < n ==> self.previous@[l].0@ != name@,
            decreases j,
        {
            let jj = j - 1;
            if self.previous[jj].0 == *name {
                proof {
                    lemma_map_of_last_match(self.previous@, jj as int);
                }
                return Some(jj);
            }
            j = jj;
        }
        proof {
            lemma_map_of_absent(self.previous@, name@);
        }
        None
    }

    /// Absorbs a batch of raw samples, returning one delta per sample in
    /// the same relative order.  Every sample's raw counter pair
    /// unconditionally replaces the stored pair for its name, whether or
    /// not a counter decreased.
    pub fn update(&mut self, stats: &[InterfaceStats]) -> (deltas: Vec<NetDelta>)
        ensures
            final(self)@ == spec_track_map(old(self)@, stats_views(stats@)),
            deltas_views(deltas@) == spec_track_deltas(old(self)@, stats_views(stats@)),
            deltas@.len() == stats@.len(),
    {
        let ghost m0 = self@;
        let ghost vs = stats_views(stats@);
        let n = stats.len();
        let mut deltas: Vec<NetDelta> = Vec::new();
        let mut i: usize = 0;
        while i < n
            invariant
                0 <= i <= n,
                n == stats@.len(),
                vs == stats_views(stats@),
                deltas@.len() == i,
                self@ == spec_track_map(m0, vs.take(i as int)),
                deltas_views(deltas@) == spec_track_deltas(m0, vs.take(i as int)),
            decreases n - i,
        {
            let s = &stats[i];
            let ghost m_cur = self@;
            let (rx_delta, tx_delta): (u64, u64) = match self.find_last(&s.interface) {
                Some(j) => {
                    let prev_rx = self.previous[j].1;
                    let prev_tx = self.previous[j].2;
                    let entry = (s.interface.clone(), s.rx_bytes, s.tx_bytes);
                    proof {
                        lemma_map_of_update_last(self.previous@, j as int, entry);
                    }
                    self.previous[j] = entry;
                    (s.rx_bytes.saturating_sub(prev_rx), s.tx_bytes.saturating_sub(prev_tx))
                },
                None => {
                    let ghost entries_before = self.previous@;
                    self.previous.push((s.interface.clone(), s.rx_bytes, s.tx_bytes));
                    proof {
                        assert(self.previous@.drop_last() =~= entries_before);
                    }
                    (0, 0)
                },
            };
            let d = NetDelta {
                interface: s.interface.clone(),
                rx_delta,
                tx_delta,
                kind: s.kind,
            };
            deltas.push(d);
            proof {
                assert(vs[i as int] == stats@[i as int]@);
                assert(vs.take(i + 1).drop_last() =~= vs.take(i as int));
                assert(vs.take(i + 1) =~= vs.take(i as int).push(vs[i as int]));
                lemma_track_snoc(m0, vs.take(i as int), vs[i as int]);
                assert(self@ == m_cur.insert(vs[i as int].interface, (vs[i as int].rx_bytes, vs[i as int].tx_bytes)));
                assert(deltas_views(deltas@) =~= spec_track_deltas(m0, vs.take(i + 1)));
            }
            i += 1;
        }
        proof {
            assert(vs.take(n as int) =~= vs);
        }
        deltas
    }
}

impl Default for DeltaTracker {
    /// A tracker that has observed nothing yet.
    fn default() -> (t: Self)
        ensures
            t@ == Map::<Seq<char>, (u64, u64)>::empty(),
    {
        DeltaTracker::new()
    }
}

} // verus!
