//! The statistics a MeshCore node reports, the metrics a user can ask to
//! follow, and the bounded history kept for each followed metric.
use std::collections::VecDeque;

use vstd::prelude::*;

use crate::text::same_text;

verus! {

/// Reply to `stats-core`.
#[derive(Debug, Clone)]
pub struct CoreStats {
    pub battery_mv: i32,
    pub uptime_secs: u64,
    pub errors: u64,
    pub queue_len: u64,
}

/// Reply to `stats-radio`. The signal-to-noise ratio, an `f32` in the
/// node's reply, is held as the bit pattern of that `f32`
/// (`f32::to_bits`), so that it passes through unchanged.
#[derive(Debug, Clone)]
pub struct RadioStats {
    pub noise_floor: i32,
    pub last_rssi: i32,
    pub last_snr_bits: u32,
    pub tx_air_secs: u64,
    pub rx_air_secs: u64,
}

/// Reply to `stats-packets`: cumulative packet counters.
#[derive(Debug, Clone)]
pub struct PacketStats {
    pub recv: u64,
    pub sent: u64,
    pub flood_tx: u64,
    pub direct_tx: u64,
    pub flood_rx: u64,
    pub direct_rx: u64,
    pub recv_errors: u64,
}

/// Replies to `ver`, `board` and `get name`.
#[derive(Debug, Clone)]
pub struct NodeInfo {
    pub version: String,
    pub board: String,
    pub name: String,
}

/// A metric whose history can be followed.
#[derive(Debug, Clone, Copy, PartialEq, Eq, Structural, Hash, PartialOrd, Ord)]
pub enum MetricKind {
    BatteryMv,
    LastRssi,
    LastSnr,
    RecvPackets,
    SentPackets,
    FloodTx,
    FloodRx,
    DirectTx,
    DirectRx,
    RecvErrors,
}

/// Number of metric kinds.
pub const KIND_COUNT: usize = 10;

/// The kind a metric name stands for: the names accepted on the command
/// line, with `recv_packets` and `sent_packets` as aliases of `recv` and
/// `sent`.
pub open spec fn kind_named(s: Seq<char>) -> Option<MetricKind> {
    if s == "battery_mv"@ {
        Some(MetricKind::BatteryMv)
    } else if s == "last_rssi"@ {
        Some(MetricKind::LastRssi)
    } else if s == "last_snr"@ {
        Some(MetricKind::LastSnr)
    } else if s == "recv"@ || s == "recv_packets"@ {
        Some(MetricKind::RecvPackets)
    } else if s == "sent"@ || s == "sent_packets"@ {
        Some(MetricKind::SentPackets)
    } else if s == "flood_tx"@ {
        Some(MetricKind::FloodTx)
    } else if s == "flood_rx"@ {
        Some(MetricKind::FloodRx)
    } else if s == "direct_tx"@ {
        Some(MetricKind::DirectTx)
    } else if s == "direct_rx"@ {
        Some(MetricKind::DirectRx)
    } else if s == "recv_errors"@ {
        Some(MetricKind::RecvErrors)
    } else {
        None
    }
}

/// Position of each kind in declaration order.
pub open spec fn kind_slot(kind: MetricKind) -> int {
    match kind {
        MetricKind::BatteryMv => 0,
        MetricKind::LastRssi => 1,
        MetricKind::LastSnr => 2,
        MetricKind::RecvPackets => 3,
        MetricKind::SentPackets => 4,
        MetricKind::FloodTx => 5,
        MetricKind::FloodRx => 6,
        MetricKind::DirectTx => 7,
        MetricKind::DirectRx => 8,
        MetricKind::RecvErrors => 9,
    }
}

/// The kind at a position in declaration order.
pub open spec fn kind_at_slot(i: int) -> MetricKind {
    if i == 0 {
        MetricKind::BatteryMv
    } else if i == 1 {
        MetricKind::LastRssi
    } else if i == 2 {
        MetricKind::LastSnr
    } else if i == 3 {
        MetricKind::RecvPackets
    } else if i == 4 {
        MetricKind::SentPackets
    } else if i == 5 {
        MetricKind::FloodTx
    } else if i == 6 {
        MetricKind::FloodRx
    } else if i == 7 {
        MetricKind::DirectTx
    } else if i == 8 {
        MetricKind::DirectRx
    } else {
        MetricKind::RecvErrors
    }
}

impl MetricKind {
    /// Parses a metric name; `None` for a name that is not known.
    pub fn from_str(s: &str) -> (r: Option<Self>)
        ensures
            r == kind_named(s@),
    {
        if same_text(s, "battery_mv") {
            Some(MetricKind::BatteryMv)
        } else if same_text(s, "last_rssi") {
            Some(MetricKind::LastRssi)
        } else if same_text(s, "last_snr") {
            Some(MetricKind::LastSnr)
        } else if same_text(s, "recv") || same_text(s, "recv_packets") {
            Some(MetricKind::RecvPackets)
        } else if same_text(s, "sent") || same_text(s, "sent_packets") {
            Some(MetricKind::SentPackets)
        } else if same_text(s, "flood_tx") {
            Some(MetricKind::FloodTx)
        } else if same_text(s, "flood_rx") {
            Some(MetricKind::FloodRx)
        } else if same_text(s, "direct_tx") {
            Some(MetricKind::DirectTx)
        } else if same_text(s, "direct_rx") {
            Some(MetricKind::DirectRx)
        } else if same_text(s, "recv_errors") {
            Some(MetricKind::RecvErrors)
        } else {
            None
        }
    }

    /// Position of the kind in declaration order.
    pub fn slot(self) -> (r: usize)
        ensures
            r == kind_slot(self),
            r < KIND_COUNT,
    {
        match self {
            MetricKind::BatteryMv => 0,
            MetricKind::LastRssi => 1,
            MetricKind::LastSnr => 2,
            MetricKind::RecvPackets => 3,
            MetricKind::SentPackets => 4,
            MetricKind::FloodTx => 5,
            MetricKind::FloodRx => 6,
            MetricKind::DirectTx => 7,
            MetricKind::DirectRx => 8,
            MetricKind::RecvErrors => 9,
        }
    }

    /// The kind at a position in declaration order.
    pub fn at_slot(i: usize) -> (r: Self)
        requires
            i < KIND_COUNT,
        ensures
            r == kind_at_slot(i as int),
            kind_slot(r) == i,
    {
        if i == 0 {
            MetricKind::BatteryMv
        } else if i == 1 {
            MetricKind::LastRssi
        } else if i == 2 {
            MetricKind::LastSnr
        } else if i == 3 {
            MetricKind::RecvPackets
        } else if i == 4 {
            MetricKind::SentPackets
        } else if i == 5 {
            MetricKind::FloodTx
        } else if i == 6 {
            MetricKind::FloodRx
        } else if i == 7 {
            MetricKind::DirectTx
        } else if i == 8 {
            MetricKind::DirectRx
        } else {
            MetricKind::RecvErrors
        }
    }
}

/// Each kind sits at its own slot, and the slot gives the kind back.
pub proof fn lemma_kind_slot(kind: MetricKind)
    ensures
        0 <= kind_slot(kind) < KIND_COUNT,
        kind_at_slot(kind_slot(kind)) == kind,
{
}

/// A per-second rate held exactly: `count` events over `secs` seconds.
#[derive(Debug, Clone, Copy, PartialEq, Eq, Structural)]
pub struct RateSample {
    pub count: u64,
    pub secs: u64,
}

/// How much a counter grew: zero when it went down (the node restarted and
/// its counters were reset), so that no rate is ever negative.
pub open spec fn counter_growth(current: u64, previous: u64) -> u64 {
    if current >= previous {
        (current - previous) as u64
    } else {
        0
    }
}

/// Rate at which a counter grew from `previous` to `current` over `secs`
/// seconds.
pub fn rate_per_sec(current: u64, previous: u64, secs: u64) -> (r: RateSample)
    ensures
        r == (RateSample { count: counter_growth(current, previous), secs }),
{
    if current >= previous {
        RateSample { count: current - previous, secs }
    } else {
        RateSample { count: 0, secs }
    }
}

/// The history of a series after `v` is added: `v` goes at the end, and
/// when the history was full the oldest sample leaves.
pub open spec fn window_push(values: Seq<RateSample>, max_len: nat, v: RateSample) -> Seq<
    RateSample,
> {
    if values.len() == max_len && values.len() > 0 {
        values.drop_first().push(v)
    } else {
        values.push(v)
    }
}

/// Time series for a single metric: at most `max_len` of the latest samples,
/// oldest first.
#[derive(Debug)]
pub struct MetricSeries {
    pub values: VecDeque<RateSample>,
    pub max_len: usize,
}

impl View for MetricSeries {
    type V = (Seq<RateSample>, nat);

    open spec fn view(&self) -> (Seq<RateSample>, nat) {
        (self.values@, self.max_len as nat)
    }
}

impl MetricSeries {
    /// An empty series that keeps at most `max_len` samples.
    pub fn new(max_len: usize) -> (r: Self)
        ensures
            r@ == (Seq::<RateSample>::empty(), max_len as nat),
    {
        MetricSeries { values: VecDeque::with_capacity(max_len), max_len }
    }

    /// Adds a sample, dropping the oldest one when the series is full.
    pub fn push(&mut self, v: RateSample)
        ensures
            final(self)@ == (window_push(old(self)@.0, old(self)@.1, v), old(self)@.1),
    {
        if self.values.len() == self.max_len {
            let _ = self.values.pop_front();
        }
        self.values.push_back(v);
    }
}

} // verus!
