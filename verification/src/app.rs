//! Application state and how each poll of the node changes it.
use std::collections::HashMap;

use vstd::prelude::*;
use vstd::string::StringExecFns;

use crate::cli::Args;
use crate::model::{
    kind_at_slot, kind_named, kind_slot, lemma_kind_slot, rate_per_sec, window_push, CoreStats,
    MetricKind, MetricSeries, NodeInfo, PacketStats, RadioStats, RateSample, counter_growth,
    KIND_COUNT,
};
use crate::serial::{normalize_line, normalized};
use crate::text::{decimal, push_decimal, skip_leading, strip_leading, to_chars, trim, trim_range};

verus! {

broadcast use vstd::std_specs::hash::group_hash_axioms;

/// Number of samples kept for each followed metric.
pub const HISTORY_LEN: usize = 60;

/// The followed metrics, each with its history; a metric appears at most
/// once. The map is keyed by the kind's position in declaration order.
pub struct MetricTable {
    series: HashMap<u64, MetricSeries>,
}

/// The map key of a metric kind.
pub open spec fn kind_key(kind: MetricKind) -> u64 {
    kind_slot(kind) as u64
}

impl View for MetricTable {
    type V = Map<MetricKind, (Seq<RateSample>, nat)>;

    closed spec fn view(&self) -> Map<MetricKind, (Seq<RateSample>, nat)> {
        Map::new(
            |k: MetricKind| self.series@.contains_key(kind_key(k)),
            |k: MetricKind| self.series@[kind_key(k)]@,
        )
    }
}

/// Distinct kinds have distinct keys.
proof fn lemma_kind_key_injective(a: MetricKind, b: MetricKind)
    ensures
        kind_key(a) == kind_key(b) ==> a == b,
{
    lemma_kind_slot(a);
    lemma_kind_slot(b);
}

impl MetricTable {
    /// A table that follows no metric.
    pub fn new() -> (t: Self)
        ensures
            t@ == Map::<MetricKind, (Seq<RateSample>, nat)>::empty(),
    {
        let t = MetricTable { series: HashMap::new() };
        assert(t@ =~= Map::<MetricKind, (Seq<RateSample>, nat)>::empty());
        t
    }

    /// Whether the metric is followed.
    pub fn contains(&self, kind: MetricKind) -> (r: bool)
        ensures
            r == self@.contains_key(kind),
    {
        let key = kind.slot() as u64;
        self.series.contains_key(&key)
    }

    /// The history of a metric, if it is followed.
    pub fn get(&self, kind: MetricKind) -> (r: Option<&MetricSeries>)
        ensures
            r is Some == self@.contains_key(kind),
            r matches Some(s) ==> s@ == self@[kind],
    {
        let key = kind.slot() as u64;
        self.series.get(&key)
    }

    /// Starts following a metric with an empty history, unless it is
    /// followed already (`entry(kind).or_insert_with(..)`).
    pub fn follow(&mut self, kind: MetricKind, max_len: usize)
        ensures
            final(self)@ == if old(self)@.contains_key(kind) {
                old(self)@
            } else {
                old(self)@.insert(kind, (Seq::<RateSample>::empty(), max_len as nat))
            },
    {
        let key = kind.slot() as u64;
        if !self.series.contains_key(&key) {
            self.series.insert(key, MetricSeries::new(max_len));
            proof {
                assert forall|k: MetricKind| kind_key(k) == kind_key(kind) implies k == kind by {
                    lemma_kind_key_injective(k, kind);
                }
                assert(self@ =~= old(self)@.insert(kind, (Seq::<RateSample>::empty(), max_len as nat)));
            }
        }
    }
}

/// The packet counter a metric follows, if it follows one.
pub open spec fn counter_of(kind: MetricKind, p: PacketStats) -> Option<u64> {
    match kind {
        MetricKind::RecvPackets => Some(p.recv),
        MetricKind::SentPackets => Some(p.sent),
        MetricKind::FloodTx => Some(p.flood_tx),
        MetricKind::FloodRx => Some(p.flood_rx),
        MetricKind::DirectTx => Some(p.direct_tx),
        MetricKind::DirectRx => Some(p.direct_rx),
        MetricKind::RecvErrors => Some(p.recv_errors),
        _ => None,
    }
}

/// The sample a poll adds to a metric's history: the rate at which its
/// packet counter grew since the previous poll, and a zero rate for a
/// metric that follows no packet counter.
pub open spec fn sample_for(
    kind: MetricKind,
    previous: PacketStats,
    current: PacketStats,
    secs: u64,
) -> RateSample {
    match (counter_of(kind, current), counter_of(kind, previous)) {
        (Some(c), Some(p)) => RateSample { count: counter_growth(c, p), secs },
        _ => RateSample { count: 0, secs },
    }
}

/// The packet counter a metric follows, if it follows one.
pub fn packet_counter(kind: MetricKind, p: &PacketStats) -> (r: Option<u64>)
    ensures
        r == counter_of(kind, *p),
{
    match kind {
        MetricKind::RecvPackets => Some(p.recv),
        MetricKind::SentPackets => Some(p.sent),
        MetricKind::FloodTx => Some(p.flood_tx),
        MetricKind::FloodRx => Some(p.flood_rx),
        MetricKind::DirectTx => Some(p.direct_tx),
        MetricKind::DirectRx => Some(p.direct_rx),
        MetricKind::RecvErrors => Some(p.recv_errors),
        _ => None,
    }
}

/// The sample a poll adds to the history of `kind`.
pub fn metric_sample(kind: MetricKind, previous: &PacketStats, current: &PacketStats, secs: u64) -> (r:
    RateSample)
    ensures
        r == sample_for(kind, *previous, *current, secs),
{
    match (packet_counter(kind, current), packet_counter(kind, previous)) {
        (Some(c), Some(p)) => rate_per_sec(c, p, secs),
        _ => RateSample { count: 0, secs },
    }
}

/// The table after a poll: every followed metric gets one new sample.
pub open spec fn recorded(
    m: Map<MetricKind, (Seq<RateSample>, nat)>,
    previous: PacketStats,
    current: PacketStats,
    secs: u64,
) -> Map<MetricKind, (Seq<RateSample>, nat)> {
    Map::new(
        |k: MetricKind| m.contains_key(k),
        |k: MetricKind| (window_push(m[k].0, m[k].1, sample_for(k, previous, current, secs)), m[k].1),
    )
}

impl MetricTable {
    /// Adds to every followed metric the sample for the poll that moved the
    /// packet counters from `previous` to `current` over `secs` seconds.
    pub fn record(&mut self, previous: &PacketStats, current: &PacketStats, secs: u64)
        ensures
            final(self)@ == recorded(old(self)@, *previous, *current, secs),
    {
        let mut i: usize = 0;
        while i < KIND_COUNT
            invariant
                i <= KIND_COUNT,
                forall|j: u64| #[trigger] self.series@.contains_key(j) == old(self).series@.contains_key(j),
                forall|j: u64|
                    i <= j && #[trigger] self.series@.contains_key(j) ==> self.series@[j]
                        == old(self).series@[j],
                forall|j: u64|
                    j < i && #[trigger] self.series@.contains_key(j) ==> self.series@[j]@ == (
                    window_push(
                        old(self).series@[j]@.0,
                        old(self).series@[j]@.1,
                        sample_for(kind_at_slot(j as int), *previous, *current, secs),
                    ),
                    old(self).series@[j]@.1,
                ),
            decreases KIND_COUNT - i,
        {
            let kind = MetricKind::at_slot(i);
            let sample = metric_sample(kind, previous, current, secs);
            let key = i as u64;
            let ghost before = self.series@;
            match self.series.remove(&key) {
                Some(mut series) => {
                    series.push(sample);
                    self.series.insert(key, series);
                    assert(self.series@ =~= before.insert(key, self.series@[key]));
                },
                None => {},
            }
            i = i + 1;
        }
        proof {
            assert forall|k: MetricKind| #[trigger] self@.contains_key(k) == old(self)@.contains_key(k) by {
                lemma_kind_slot(k);
            }
            assert forall|k: MetricKind| old(self)@.contains_key(k) implies #[trigger] self@[k]
                == recorded(old(self)@, *previous, *current, secs)[k] by {
                lemma_kind_slot(k);
                let j = kind_key(k);
                assert(self.series@.contains_key(j));
                assert(j < KIND_COUNT);
                assert(kind_at_slot(j as int) == k);
            }
            assert(self@ =~= recorded(old(self)@, *previous, *current, secs));
        }
    }
}

/// Application state: the node's identity, its latest statistics and the
/// followed metrics.
pub struct AppState {
    pub node: NodeInfo,
    pub core: CoreStats,
    pub radio: RadioStats,
    pub packets: PacketStats,
    pub metrics: MetricTable,
}

impl AppState {
    /// A state that follows no metric yet.
    pub fn new(node: NodeInfo, core: CoreStats, radio: RadioStats, packets: PacketStats) -> (r: Self)
        ensures
            r.node == node,
            r.core == core,
            r.radio == radio,
            r.packets == packets,
            r.metrics@ == Map::<MetricKind, (Seq<RateSample>, nat)>::empty(),
    {
        AppState { node, core, radio, packets, metrics: MetricTable::new() }
    }
}

/// Whether the user asked to follow `kind`: with no metric named, the
/// received and sent packet counts; otherwise every known name counts, and
/// unknown names are ignored.
pub open spec fn requested(names: Seq<String>, kind: MetricKind) -> bool {
    if names.len() == 0 {
        kind == MetricKind::RecvPackets || kind == MetricKind::SentPackets
    } else {
        exists|i: int| 0 <= i < names.len() && kind_named(#[trigger] names[i]@) == Some(kind)
    }
}

/// The table after the requested metrics are followed: those already
/// followed keep their history, the others start with an empty history of
/// [`HISTORY_LEN`] samples.
pub open spec fn with_requested(
    m: Map<MetricKind, (Seq<RateSample>, nat)>,
    names: Seq<String>,
) -> Map<MetricKind, (Seq<RateSample>, nat)> {
    Map::new(
        |k: MetricKind| m.contains_key(k) || requested(names, k),
        |k: MetricKind|
            if m.contains_key(k) {
                m[k]
            } else {
                (Seq::<RateSample>::empty(), HISTORY_LEN as nat)
            },
    )
}

/// Starts following the metrics named on the command line (see
/// [`requested`]).
pub fn init_metric_series(state: &mut AppState, metric_names: &[String])
    ensures
        final(state).metrics@ == with_requested(old(state).metrics@, metric_names@),
        final(state).node == old(state).node,
        final(state).core == old(state).core,
        final(state).radio == old(state).radio,
        final(state).packets == old(state).packets,
{
    let ghost m0 = state.metrics@;
    if metric_names.len() == 0 {
        state.metrics.follow(MetricKind::RecvPackets, HISTORY_LEN);
        state.metrics.follow(MetricKind::SentPackets, HISTORY_LEN);
        assert(state.metrics@ =~= with_requested(m0, metric_names@));
        return;
    }
    let mut i: usize = 0;
    while i < metric_names.len()
        invariant
            i <= metric_names@.len(),
            metric_names@.len() > 0,
            state.node == old(state).node,
            state.core == old(state).core,
            state.radio == old(state).radio,
            state.packets == old(state).packets,
            m0 == old(state).metrics@,
            state.metrics@ == Map::new(
                |k: MetricKind|
                    m0.contains_key(k) || exists|j: int|
                        0 <= j < i && kind_named(#[trigger] metric_names@[j]@) == Some(k),
                |k: MetricKind|
                    if m0.contains_key(k) {
                        m0[k]
                    } else {
                        (Seq::<RateSample>::empty(), HISTORY_LEN as nat)
                    },
            ),
        decreases metric_names@.len() - i,
    {
        let kind = MetricKind::from_str(metric_names[i].as_str());
        let ghost before = state.metrics@;
        match kind {
            Some(k) => state.metrics.follow(k, HISTORY_LEN),
            None => {},
        }
        proof {
            let target = Map::new(
                |k: MetricKind|
                    m0.contains_key(k) || exists|j: int|
                        0 <= j < i + 1 && kind_named(#[trigger] metric_names@[j]@) == Some(k),
                |k: MetricKind|
                    if m0.contains_key(k) {
                        m0[k]
                    } else {
                        (Seq::<RateSample>::empty(), HISTORY_LEN as nat)
                    },
            );
            assert forall|k: MetricKind| #[trigger] state.metrics@.contains_key(k) == target.contains_key(k) by {
                if exists|j: int| 0 <= j < i + 1 && kind_named(#[trigger] metric_names@[j]@) == Some(k) {
                    let j = choose|j: int| 0 <= j < i + 1 && kind_named(#[trigger] metric_names@[j]@) == Some(k);
                    if j < i {
                        assert(before.contains_key(k));
                    }
                }
            }
            assert(state.metrics@ =~= target);
        }
        i = i + 1;
    }
    assert(state.metrics@ =~= with_requested(m0, metric_names@));
}

/// The node name as the dashboard shows it: the reply value without the
/// `>` prompt marks in front, trimmed.
pub open spec fn node_name_text(text: Seq<char>) -> Seq<char> {
    trim(strip_leading(normalized(text), '>'))
}

/// Extracts the node name from the text of the `get name` reply.
pub fn node_name(text: &str) -> (r: String)
    ensures
        r@ == node_name_text(text@),
{
    let value = normalize_line(text);
    let chars = to_chars(value.as_str());
    let a = skip_leading(&chars, 0, chars.len(), '>');
    let (b, e) = trim_range(&chars, a, chars.len());
    assert(chars@.subrange(0, chars@.len() as int) =~= chars@);
    value.as_str().substring_char(b, e).to_owned()
}

/// The state after the first poll of the node: `version` and `board` are
/// the texts of the `ver` and `board` replies, `name_text` the text of the
/// `get name` reply, and the metrics named in `args` are followed.
pub fn build_initial_state(
    args: &Args,
    version: String,
    board: String,
    name_text: &str,
    core: CoreStats,
    radio: RadioStats,
    packets: PacketStats,
) -> (state: AppState)
    ensures
        state.node.version == version,
        state.node.board == board,
        state.node.name@ == node_name_text(name_text@),
        state.core == core,
        state.radio == radio,
        state.packets == packets,
        state.metrics@ == with_requested(
            Map::<MetricKind, (Seq<RateSample>, nat)>::empty(),
            args.metrics@,
        ),
{
    let name = node_name(name_text);
    let node = NodeInfo { version, board, name };
    let mut state = AppState::new(node, core, radio, packets);
    init_metric_series(&mut state, args.metrics.as_slice());
    state
}

/// Seconds between two polls: the refresh interval, but at least one.
pub open spec fn refresh_period(interval: u64) -> u64 {
    if interval == 0 {
        1
    } else {
        interval
    }
}

/// Seconds between two polls: the refresh interval, but at least one.
pub fn refresh_secs(interval: u64) -> (r: u64)
    ensures
        r == refresh_period(interval),
        r >= 1,
{
    if interval == 0 {
        1
    } else {
        interval
    }
}

/// Applies one poll of the node: the state takes the `stats-core`,
/// `stats-radio` and `stats-packets` replies, and every followed metric
/// records the rate at which its counter grew since the previous poll, over
/// the refresh period.
pub fn tick_update(
    state: &mut AppState,
    core: CoreStats,
    radio: RadioStats,
    packets: PacketStats,
    interval_secs: u64,
)
    ensures
        final(state).core == core,
        final(state).radio == radio,
        final(state).packets == packets,
        final(state).metrics@ == recorded(
            old(state).metrics@,
            old(state).packets,
            packets,
            refresh_period(interval_secs),
        ),
        final(state).node == old(state).node,
{
    let secs = refresh_secs(interval_secs);
    state.core = core;
    state.radio = radio;
    let mut previous = packets;
    std::mem::swap(&mut previous, &mut state.packets);
    state.metrics.record(&previous, &state.packets, secs);
}

/// Days, hours, minutes and seconds of a duration, as the dashboard shows it:
/// leading units that are zero are left out.
pub open spec fn duration_text(secs: nat) -> Seq<char> {
    let days = secs / 86400;
    let hours = (secs % 86400) / 3600;
    let minutes = (secs % 3600) / 60;
    let seconds = secs % 60;
    if days > 0 {
        decimal(days) + seq!['d', ' '] + decimal(hours) + seq!['h', ' '] + decimal(minutes) + seq![
            'm',
            ' ',
        ] + decimal(seconds) + seq!['s']
    } else if hours > 0 {
        decimal(hours) + seq!['h', ' '] + decimal(minutes) + seq!['m', ' '] + decimal(seconds)
            + seq!['s']
    } else if minutes > 0 {
        decimal(minutes) + seq!['m', ' '] + decimal(seconds) + seq!['s']
    } else {
        decimal(seconds) + seq!['s']
    }
}

/// Formats a number of seconds as `1d 1h 0m 0s`, `1h 1m 40s`, `1m 15s` or `5s`.
pub fn format_duration(secs: u64) -> (r: String)
    ensures
        r@ == duration_text(secs as nat),
{
    let days = secs / 86_400;
    let hours = (secs % 86_400) / 3_600;
    let minutes = (secs % 3_600) / 60;
    let seconds = secs % 60;
    proof {
        reveal_strlit("d ");
        reveal_strlit("h ");
        reveal_strlit("m ");
        reveal_strlit("s");
    }
    let mut out = String::new();
    if days > 0 {
        push_decimal(&mut out, days);
        out.append("d ");
        push_decimal(&mut out, hours);
        out.append("h ");
        push_decimal(&mut out, minutes);
        out.append("m ");
    } else if hours > 0 {
        push_decimal(&mut out, hours);
        out.append("h ");
        push_decimal(&mut out, minutes);
        out.append("m ");
    } else if minutes > 0 {
        push_decimal(&mut out, minutes);
        out.append("m ");
    }
    push_decimal(&mut out, seconds);
    out.append("s");
    assert(out@ =~= duration_text(secs as nat));
    out
}

} // verus!
