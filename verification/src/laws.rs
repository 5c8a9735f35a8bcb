//! Properties of the library as a whole, proved over the definitions its
//! functions' contracts are stated in.
use vstd::prelude::*;

use crate::app::{duration_text, recorded, refresh_period, sample_for, with_requested, HISTORY_LEN};
use crate::cli::Args;
use crate::ui::port_line_text;
use crate::model::{counter_growth, kind_named, window_push, MetricKind, PacketStats, RateSample};
use crate::serial::{
    first_arrow_line, has_arrow, lines, newline_pos, normalized, response_line, strip_arrows,
};
use crate::text::{decimal, digit_char, is_digit, is_white_space, trim, trim_end, trim_start};

verus! {

// ---------------------------------------------------------------------
// Decimal text
// ---------------------------------------------------------------------

/// Every character of a decimal text is a digit, and there is at least one.
pub proof fn lemma_decimal_digits(n: nat)
    ensures
        decimal(n).len() >= 1,
        forall|i: int| 0 <= i < decimal(n).len() ==> is_digit(#[trigger] decimal(n)[i]),
        decimal(n).len() == 1 <==> n < 10,
    decreases n,
{
    if n >= 10 {
        lemma_decimal_digits(n / 10);
        let d = decimal(n / 10);
        assert forall|i: int| 0 <= i < decimal(n).len() implies is_digit(#[trigger] decimal(n)[i]) by {
            if i < d.len() {
                assert(decimal(n)[i] == d[i]);
            }
        }
    }
}

/// Distinct numbers have distinct decimal texts.
pub proof fn lemma_decimal_injective(a: nat, b: nat)
    requires
        decimal(a) == decimal(b),
    ensures
        a == b,
    decreases a,
{
    lemma_decimal_digits(a);
    lemma_decimal_digits(b);
    if a >= 10 {
        let da = decimal(a);
        let db = decimal(b);
        assert(da.drop_last() =~= decimal(a / 10));
        assert(db.drop_last() =~= decimal(b / 10));
        lemma_decimal_injective(a / 10, b / 10);
        assert(da.last() == digit_char(a % 10));
        assert(db.last() == digit_char(b % 10));
    } else {
        assert(decimal(a)[0] == digit_char(a));
        assert(decimal(b)[0] == digit_char(b));
    }
}

/// A number written in front of a text that starts with a non-digit can be
/// read back: equal texts give equal numbers and equal rests.
pub proof fn lemma_number_then_text(x: nat, r1: Seq<char>, y: nat, r2: Seq<char>)
    requires
        decimal(x) + r1 == decimal(y) + r2,
        r1.len() > 0,
        r2.len() > 0,
        !is_digit(r1[0]),
        !is_digit(r2[0]),
    ensures
        x == y,
        r1 == r2,
{
    lemma_decimal_digits(x);
    lemma_decimal_digits(y);
    let dx = decimal(x);
    let dy = decimal(y);
    let t = dx + r1;
    assert(t == dy + r2);
    if dx.len() < dy.len() {
        assert(t[dx.len() as int] == r1[0]);
        assert(t[dx.len() as int] == dy[dx.len() as int]);
    }
    if dy.len() < dx.len() {
        assert(t[dy.len() as int] == r2[0]);
        assert(t[dy.len() as int] == dx[dy.len() as int]);
    }
    assert(dx.len() == dy.len());
    assert(dx =~= t.take(dx.len() as int));
    assert(dy =~= t.take(dx.len() as int));
    assert(r1 =~= t.skip(dx.len() as int));
    assert(r2 =~= t.skip(dx.len() as int));
    lemma_decimal_injective(x, y);
}

// ---------------------------------------------------------------------
// Durations
// ---------------------------------------------------------------------

/// The days, hours, minutes and seconds that `format_duration` shows add up
/// to the duration, and each unit below days stays below its next unit.
pub proof fn lemma_duration_parts(secs: nat)
    ensures
        ({
            let days = secs / 86400;
            let hours = (secs % 86400) / 3600;
            let minutes = (secs % 3600) / 60;
            let seconds = secs % 60;
            &&& days * 86400 + hours * 3600 + minutes * 60 + seconds == secs
            &&& hours < 24
            &&& minutes < 60
            &&& seconds < 60
        }),
{
    let days = secs / 86400;
    let r = secs % 86400;
    let q = secs % 3600;
    assert(secs == days * 86400 + r && 0 <= r < 86400 && r / 3600 < 24 && r == (r / 3600) * 3600
        + r % 3600 && q == r % 3600 && q == (q / 60) * 60 + q % 60 && q / 60 < 60 && q % 60 == secs
        % 60) by (nonlinear_arith)
        requires
            days == secs / 86400,
            r == secs % 86400,
            q == secs % 3600,
    ;
}

spec fn seconds_text(s: nat) -> Seq<char> {
    decimal(s) + seq!['s']
}

spec fn minutes_text(m: nat, s: nat) -> Seq<char> {
    decimal(m) + (seq!['m', ' '] + seconds_text(s))
}

spec fn hours_text(h: nat, m: nat, s: nat) -> Seq<char> {
    decimal(h) + (seq!['h', ' '] + minutes_text(m, s))
}

spec fn days_text(d: nat, h: nat, m: nat, s: nat) -> Seq<char> {
    decimal(d) + (seq!['d', ' '] + hours_text(h, m, s))
}

proof fn lemma_duration_forms(a: nat)
    ensures
        ({
            let d = a / 86400;
            let h = (a % 86400) / 3600;
            let m = (a % 3600) / 60;
            let s = a % 60;
            duration_text(a) == if d > 0 {
                days_text(d, h, m, s)
            } else if h > 0 {
                hours_text(h, m, s)
            } else if m > 0 {
                minutes_text(m, s)
            } else {
                seconds_text(s)
            }
        }),
{
    let d = a / 86400;
    let h = (a % 86400) / 3600;
    let m = (a % 3600) / 60;
    let s = a % 60;
    if d > 0 {
        assert(duration_text(a) =~= days_text(d, h, m, s));
    } else if h > 0 {
        assert(duration_text(a) =~= hours_text(h, m, s));
    } else if m > 0 {
        assert(duration_text(a) =~= minutes_text(m, s));
    } else {
        assert(duration_text(a) =~= seconds_text(s));
    }
}

/// Reads a number and its two-character unit back from the front of a text.
proof fn lemma_unit_step(x: nat, u: char, r1: Seq<char>, y: nat, v: char, r2: Seq<char>)
    requires
        decimal(x) + (seq![u, ' '] + r1) == decimal(y) + (seq![v, ' '] + r2),
        !is_digit(u),
        !is_digit(v),
    ensures
        x == y,
        u == v,
        r1 == r2,
{
    lemma_number_then_text(x, seq![u, ' '] + r1, y, seq![v, ' '] + r2);
    assert((seq![u, ' '] + r1)[0] == u);
    assert((seq![v, ' '] + r2)[0] == v);
    assert((seq![u, ' '] + r1).skip(2) =~= r1);
    assert((seq![v, ' '] + r2).skip(2) =~= r2);
}

proof fn lemma_seconds_text_injective(s1: nat, s2: nat)
    requires
        seconds_text(s1) == seconds_text(s2),
    ensures
        s1 == s2,
{
    lemma_number_then_text(s1, seq!['s'], s2, seq!['s']);
}

proof fn lemma_minutes_text_injective(m1: nat, s1: nat, m2: nat, s2: nat)
    requires
        minutes_text(m1, s1) == minutes_text(m2, s2),
    ensures
        m1 == m2,
        s1 == s2,
{
    lemma_unit_step(m1, 'm', seconds_text(s1), m2, 'm', seconds_text(s2));
    lemma_seconds_text_injective(s1, s2);
}

proof fn lemma_hours_text_injective(h1: nat, m1: nat, s1: nat, h2: nat, m2: nat, s2: nat)
    requires
        hours_text(h1, m1, s1) == hours_text(h2, m2, s2),
    ensures
        h1 == h2,
        m1 == m2,
        s1 == s2,
{
    lemma_unit_step(h1, 'h', minutes_text(m1, s1), h2, 'h', minutes_text(m2, s2));
    lemma_minutes_text_injective(m1, s1, m2, s2);
}

/// The first number of a duration text and the character after it.
proof fn lemma_form_front(a: nat)
    ensures
        ({
            let d = a / 86400;
            let h = (a % 86400) / 3600;
            let m = (a % 3600) / 60;
            let s = a % 60;
            let first = if d > 0 { d } else if h > 0 { h } else if m > 0 { m } else { s };
            let unit = if d > 0 { 'd' } else if h > 0 { 'h' } else if m > 0 { 'm' } else { 's' };
            let text = duration_text(a);
            &&& decimal(first).len() < text.len()
            &&& text[decimal(first).len() as int] == unit
            &&& text.take(decimal(first).len() as int) == decimal(first)
        }),
{
    lemma_duration_forms(a);
    let d = a / 86400;
    let h = (a % 86400) / 3600;
    let m = (a % 3600) / 60;
    let s = a % 60;
    let first = if d > 0 { d } else if h > 0 { h } else if m > 0 { m } else { s };
    let text = duration_text(a);
    assert(text.take(decimal(first).len() as int) =~= decimal(first));
}

/// Distinct durations are shown as distinct texts.
pub proof fn lemma_duration_text_injective(a: nat, b: nat)
    requires
        duration_text(a) == duration_text(b),
    ensures
        a == b,
{
    lemma_duration_parts(a);
    lemma_duration_parts(b);
    lemma_duration_forms(a);
    lemma_duration_forms(b);
    lemma_form_front(a);
    lemma_form_front(b);
    let (da, ha, ma, sa) = (a / 86400, (a % 86400) / 3600, (a % 3600) / 60, a % 60);
    let (db, hb, mb, sb) = (b / 86400, (b % 86400) / 3600, (b % 3600) / 60, b % 60);
    let first_a = if da > 0 { da } else if ha > 0 { ha } else if ma > 0 { ma } else { sa };
    let first_b = if db > 0 { db } else if hb > 0 { hb } else if mb > 0 { mb } else { sb };
    let unit_a = if da > 0 { 'd' } else if ha > 0 { 'h' } else if ma > 0 { 'm' } else { 's' };
    let unit_b = if db > 0 { 'd' } else if hb > 0 { 'h' } else if mb > 0 { 'm' } else { 's' };
    let t = duration_text(a);
    lemma_decimal_digits(first_a);
    lemma_decimal_digits(first_b);
    let la = decimal(first_a).len();
    let lb = decimal(first_b).len();
    // The first number ends where the first non-digit stands.
    if la < lb {
        assert(t[la as int] == decimal(first_b)[la as int]);
    }
    if lb < la {
        assert(t[lb as int] == decimal(first_a)[lb as int]);
    }
    assert(la == lb);
    assert(unit_a == unit_b);
    if da > 0 {
        lemma_unit_step(da, 'd', hours_text(ha, ma, sa), db, 'd', hours_text(hb, mb, sb));
        lemma_hours_text_injective(ha, ma, sa, hb, mb, sb);
    } else if ha > 0 {
        lemma_hours_text_injective(ha, ma, sa, hb, mb, sb);
    } else if ma > 0 {
        lemma_minutes_text_injective(ma, sa, mb, sb);
    } else {
        lemma_seconds_text_injective(sa, sb);
    }
}

// ---------------------------------------------------------------------
// Replies of the node
// ---------------------------------------------------------------------

proof fn lemma_trim_start_shape(x: Seq<char>)
    ensures
        trim_start(x).len() == 0 || !is_white_space(trim_start(x)[0]),
    decreases x.len(),
{
    if x.len() > 0 && is_white_space(x[0]) {
        lemma_trim_start_shape(x.drop_first());
    }
}

proof fn lemma_trim_end_shape(x: Seq<char>)
    ensures
        trim_end(x).len() <= x.len(),
        trim_end(x) == x.take(trim_end(x).len() as int),
        trim_end(x).len() == 0 || !is_white_space(trim_end(x).last()),
    decreases x.len(),
{
    if x.len() > 0 && is_white_space(x.last()) {
        lemma_trim_end_shape(x.drop_last());
        let y = trim_end(x.drop_last());
        assert(x.drop_last().take(y.len() as int) =~= x.take(y.len() as int));
    } else {
        assert(x.take(x.len() as int) =~= x);
    }
}

/// Trimming twice trims no more than trimming once.
pub proof fn lemma_trim_idempotent(x: Seq<char>)
    ensures
        trim(trim(x)) == trim(x),
{
    let z = trim_start(x);
    let y = trim_end(z);
    lemma_trim_start_shape(x);
    lemma_trim_end_shape(z);
    if y.len() > 0 {
        assert(y[0] == z[0]);
    }
    assert(trim_start(y) == y);
    assert(trim_end(y) == y);
}

/// The value extracted from a reply has no white space around it.
pub proof fn lemma_normalized_trimmed(s: Seq<char>)
    ensures
        trim(normalized(s)) == normalized(s),
{
    lemma_trim_idempotent(strip_arrows(trim(response_line(s))));
}

proof fn lemma_newline_after_echo(echo: Seq<char>, reply: Seq<char>)
    requires
        forall|i: int| 0 <= i < echo.len() ==> echo[i] != '\n',
    ensures
        newline_pos(echo + seq!['\n'] + reply) == echo.len(),
    decreases echo.len(),
{
    let t = echo + seq!['\n'] + reply;
    if echo.len() > 0 {
        assert(t[0] == echo[0]);
        assert(t.drop_first() =~= echo.drop_first() + seq!['\n'] + reply);
        lemma_newline_after_echo(echo.drop_first(), reply);
    } else {
        assert(t[0] == '\n');
    }
}

/// Lines the node echoes before its reply are skipped: when the first line
/// holds no `->` and a later line does, the value comes from the later
/// lines alone.
pub proof fn lemma_echo_skipped(echo: Seq<char>, reply: Seq<char>)
    requires
        forall|i: int| 0 <= i < echo.len() ==> echo[i] != '\n',
        !has_arrow(echo),
        first_arrow_line(lines(reply)) is Some,
    ensures
        normalized(echo + seq!['\n'] + reply) == normalized(reply),
{
    let t = echo + seq!['\n'] + reply;
    lemma_newline_after_echo(echo, reply);
    assert(t.take(echo.len() as int) =~= echo);
    assert(t.skip(echo.len() + 1 as int) =~= reply);
    assert(lines(t) == seq![echo] + lines(reply));
    crate::serial::lemma_arrow_trim(echo);
    assert((seq![echo] + lines(reply)).drop_first() =~= lines(reply));
    assert(first_arrow_line(lines(t)) == first_arrow_line(lines(reply)));
}

/// A value that is already bare (one line, trimmed, not starting with `->`)
/// comes back unchanged.
pub proof fn lemma_bare_value_unchanged(v: Seq<char>)
    requires
        forall|i: int| 0 <= i < v.len() ==> v[i] != '\n',
        trim(v) == v,
        !(v.len() >= 2 && v[0] == '-' && v[1] == '>'),
    ensures
        normalized(v) == v,
{
    if v.len() > 0 {
        lemma_newline_after_echo(v, seq![]);
        assert(newline_pos(v) == v.len()) by {
            lemma_newline_pos_full(v);
        }
        assert(lines(v) == seq![v]);
        assert(seq![v].drop_first() =~= Seq::<Seq<char>>::empty());
        assert(first_arrow_line(Seq::<Seq<char>>::empty()) is None);
        assert(first_arrow_line(seq![v]) is None || first_arrow_line(seq![v]) == Some(v));
        assert(response_line(v) == v);
    } else {
        assert(lines(v) =~= Seq::<Seq<char>>::empty());
        assert(response_line(v) =~= v);
    }
}

proof fn lemma_newline_pos_full(v: Seq<char>)
    requires
        forall|i: int| 0 <= i < v.len() ==> v[i] != '\n',
    ensures
        newline_pos(v) == v.len(),
    decreases v.len(),
{
    if v.len() > 0 {
        assert(v[0] != '\n');
        lemma_newline_pos_full(v.drop_first());
    }
}

// ---------------------------------------------------------------------
// Metric names
// ---------------------------------------------------------------------

/// The main name of each metric kind.
pub open spec fn kind_name(kind: MetricKind) -> Seq<char> {
    match kind {
        MetricKind::BatteryMv => "battery_mv"@,
        MetricKind::LastRssi => "last_rssi"@,
        MetricKind::LastSnr => "last_snr"@,
        MetricKind::RecvPackets => "recv"@,
        MetricKind::SentPackets => "sent"@,
        MetricKind::FloodTx => "flood_tx"@,
        MetricKind::FloodRx => "flood_rx"@,
        MetricKind::DirectTx => "direct_tx"@,
        MetricKind::DirectRx => "direct_rx"@,
        MetricKind::RecvErrors => "recv_errors"@,
    }
}

/// Every metric kind can be asked for by its name.
pub proof fn lemma_every_kind_has_a_name(kind: MetricKind)
    ensures
        kind_named(kind_name(kind)) == Some(kind),
{
    reveal_strlit("battery_mv");
    reveal_strlit("last_rssi");
    reveal_strlit("last_snr");
    reveal_strlit("recv");
    reveal_strlit("recv_packets");
    reveal_strlit("sent");
    reveal_strlit("sent_packets");
    reveal_strlit("flood_tx");
    reveal_strlit("flood_rx");
    reveal_strlit("direct_tx");
    reveal_strlit("direct_rx");
    reveal_strlit("recv_errors");
    let names = seq![
        "battery_mv"@,
        "last_rssi"@,
        "last_snr"@,
        "recv"@,
        "recv_packets"@,
        "sent"@,
        "sent_packets"@,
        "flood_tx"@,
        "flood_rx"@,
        "direct_tx"@,
        "direct_rx"@,
        "recv_errors"@,
    ];
    assert forall|i: int, j: int| 0 <= i < j < 12 implies #[trigger] names[i] != #[trigger] names[j] by {
        if names[i].len() == names[j].len() {
            let k: int = if names[i][0] != names[j][0] { 0 } else if names[i][6] != names[j][6] { 6 } else { 7 };
            assert(names[i][k] != names[j][k]);
        }
    }
}

// ---------------------------------------------------------------------
// Metric histories
// ---------------------------------------------------------------------

/// The history after pushing the samples `xs` one at a time.
pub open spec fn pushed_all(values: Seq<RateSample>, max_len: nat, xs: Seq<RateSample>) -> Seq<
    RateSample,
>
    decreases xs.len(),
{
    if xs.len() == 0 {
        values
    } else {
        window_push(pushed_all(values, max_len, xs.drop_last()), max_len, xs.last())
    }
}

/// The last `n` samples of `xs` (all of them when there are fewer).
pub open spec fn latest(xs: Seq<RateSample>, n: nat) -> Seq<RateSample> {
    if xs.len() <= n {
        xs
    } else {
        xs.skip(xs.len() - n)
    }
}

/// A history of positive capacity that is not over capacity stays so after
/// a push, and ends with the pushed sample.
pub proof fn lemma_window_bounded(values: Seq<RateSample>, max_len: nat, v: RateSample)
    requires
        max_len > 0,
        values.len() <= max_len,
    ensures
        window_push(values, max_len, v).len() <= max_len,
        window_push(values, max_len, v).last() == v,
{
}

/// A history started empty keeps exactly the latest `max_len` samples pushed
/// into it. (With `max_len == 0` a full history is never detected, and the
/// history keeps every sample.)
pub proof fn lemma_window_keeps_latest(max_len: nat, xs: Seq<RateSample>)
    requires
        max_len > 0,
    ensures
        pushed_all(Seq::<RateSample>::empty(), max_len, xs) == latest(xs, max_len),
    decreases xs.len(),
{
    if xs.len() > 0 {
        let ys = xs.drop_last();
        lemma_window_keeps_latest(max_len, ys);
        if ys.len() >= max_len {
            let p = latest(ys, max_len);
            assert(p.drop_first().push(xs.last()) =~= xs.skip(xs.len() - max_len));
        } else {
            assert(ys.push(xs.last()) =~= xs);
        }
    }
}

// ---------------------------------------------------------------------
// Followed metrics
// ---------------------------------------------------------------------

/// Asking twice for the same metrics follows the same metrics, with the same
/// histories, as asking once.
pub proof fn lemma_requested_idempotent(
    m: Map<MetricKind, (Seq<RateSample>, nat)>,
    names: Seq<String>,
)
    ensures
        with_requested(with_requested(m, names), names) == with_requested(m, names),
{
    assert(with_requested(with_requested(m, names), names) =~= with_requested(m, names));
}

/// Asking for metrics never drops a followed metric nor touches its history.
pub proof fn lemma_requested_keeps_history(
    m: Map<MetricKind, (Seq<RateSample>, nat)>,
    names: Seq<String>,
    kind: MetricKind,
)
    requires
        m.contains_key(kind),
    ensures
        with_requested(m, names).contains_key(kind),
        with_requested(m, names)[kind] == m[kind],
{
}

/// A poll keeps the set of followed metrics and their capacities, and a
/// history of positive capacity never grows past it.
pub proof fn lemma_poll_keeps_metrics(
    m: Map<MetricKind, (Seq<RateSample>, nat)>,
    previous: crate::model::PacketStats,
    current: crate::model::PacketStats,
    secs: u64,
    kind: MetricKind,
)
    requires
        m.contains_key(kind),
        m[kind].1 > 0,
        m[kind].0.len() <= m[kind].1,
    ensures
        recorded(m, previous, current, secs).dom() == m.dom(),
        recorded(m, previous, current, secs)[kind].1 == m[kind].1,
        recorded(m, previous, current, secs)[kind].0.len() <= m[kind].1,
        recorded(m, previous, current, secs)[kind].0.last() == sample_for(
            kind,
            previous,
            current,
            secs,
        ),
{
    assert(recorded(m, previous, current, secs).dom() =~= m.dom());
    lemma_window_bounded(m[kind].0, m[kind].1, sample_for(kind, previous, current, secs));
}

/// A counter that did not move between two polls gives a zero rate.
pub proof fn lemma_unchanged_counters_give_zero(
    kind: MetricKind,
    packets: crate::model::PacketStats,
    secs: u64,
)
    ensures
        sample_for(kind, packets, packets, secs) == (RateSample { count: 0, secs }),
{
}

/// The growth of a counter that went up, added to its previous value, gives
/// its current value; a counter that went down (the node restarted) grew by
/// nothing.
pub proof fn lemma_counter_growth(current: u64, previous: u64)
    ensures
        current >= previous ==> previous + counter_growth(current, previous) == current,
        current < previous ==> counter_growth(current, previous) == 0,
{
}

// ---------------------------------------------------------------------
// What a poll records, metric by metric
// ---------------------------------------------------------------------

/// After a poll, the newest sample of each followed metric is the growth of
/// the packet counter of the same name (`recv`, `sent`, `flood_tx`,
/// `flood_rx`, `direct_tx`, `direct_rx`, `recv_errors`) since the previous
/// poll, zero when that counter went down, and zero for the metrics that
/// follow no packet counter; it is taken over the requested interval, or
/// one second when the interval is zero.
pub proof fn lemma_poll_sample_per_counter(
    m: Map<MetricKind, (Seq<RateSample>, nat)>,
    previous: PacketStats,
    current: PacketStats,
    interval: u64,
    kind: MetricKind,
)
    requires
        m.contains_key(kind),
    ensures
        ({
            let last = recorded(m, previous, current, refresh_period(interval))[kind].0.last();
            let (p, q) = (previous, current);
            &&& interval > 0 ==> last.secs == interval
            &&& interval == 0 ==> last.secs == 1
            &&& kind == MetricKind::RecvPackets ==> last.count == (if q.recv >= p.recv {
                q.recv - p.recv
            } else {
                0
            })
            &&& kind == MetricKind::SentPackets ==> last.count == (if q.sent >= p.sent {
                q.sent - p.sent
            } else {
                0
            })
            &&& kind == MetricKind::FloodTx ==> last.count == (if q.flood_tx >= p.flood_tx {
                q.flood_tx - p.flood_tx
            } else {
                0
            })
            &&& kind == MetricKind::FloodRx ==> last.count == (if q.flood_rx >= p.flood_rx {
                q.flood_rx - p.flood_rx
            } else {
                0
            })
            &&& kind == MetricKind::DirectTx ==> last.count == (if q.direct_tx >= p.direct_tx {
                q.direct_tx - p.direct_tx
            } else {
                0
            })
            &&& kind == MetricKind::DirectRx ==> last.count == (if q.direct_rx >= p.direct_rx {
                q.direct_rx - p.direct_rx
            } else {
                0
            })
            &&& kind == MetricKind::RecvErrors ==> last.count == (if q.recv_errors
                >= p.recv_errors {
                q.recv_errors - p.recv_errors
            } else {
                0
            })
            &&& (kind == MetricKind::BatteryMv || kind == MetricKind::LastRssi || kind
                == MetricKind::LastSnr) ==> last.count == 0
        }),
{
    let secs = refresh_period(interval);
    let v = sample_for(kind, previous, current, secs);
    let w = window_push(m[kind].0, m[kind].1, v);
    assert(w.last() == v);
}

/// The refresh period is the requested interval whenever that is positive,
/// and one second for interval zero; the live dashboard polls at that period.
pub proof fn lemma_refresh_period_is_interval(interval: u64)
    ensures
        interval > 0 ==> refresh_period(interval) == interval,
        interval == 0 ==> refresh_period(interval) == 1,
{
}

// ---------------------------------------------------------------------
// Following the requested metrics
// ---------------------------------------------------------------------

/// With a non-empty list of names, a metric is followed afterwards exactly
/// when it was followed before or some name in the list, wherever it
/// stands, names it.
pub proof fn lemma_every_named_metric_followed(
    m: Map<MetricKind, (Seq<RateSample>, nat)>,
    names: Seq<String>,
    i: int,
    kind: MetricKind,
)
    requires
        0 <= i < names.len(),
        kind_named(names[i]@) == Some(kind),
    ensures
        with_requested(m, names).contains_key(kind),
        !m.contains_key(kind) ==> with_requested(m, names)[kind] == (
            Seq::<RateSample>::empty(),
            HISTORY_LEN as nat,
        ),
{
    assert(kind_named(names[i]@) == Some(kind));
}

/// A metric that no name in a non-empty list names, and that was not
/// followed before, is not followed afterwards.
pub proof fn lemma_only_named_metrics_followed(
    m: Map<MetricKind, (Seq<RateSample>, nat)>,
    names: Seq<String>,
    kind: MetricKind,
)
    requires
        names.len() > 0,
        !m.contains_key(kind),
        forall|i: int| 0 <= i < names.len() ==> kind_named(#[trigger] names[i]@) != Some(kind),
    ensures
        !with_requested(m, names).contains_key(kind),
{
}

// ---------------------------------------------------------------------
// The whole reply value
// ---------------------------------------------------------------------

/// For an echoed command line (no `->`, no line break) followed by a reply
/// line `"  -> " + v + "\r\n"`, where `v` has no line break and no white space
/// at either end, the extracted value is exactly `v`, whatever its length.
pub proof fn lemma_reply_value_whole(echo: Seq<char>, v: Seq<char>)
    requires
        forall|i: int| 0 <= i < echo.len() ==> echo[i] != '\n',
        !has_arrow(echo),
        forall|i: int| 0 <= i < v.len() ==> v[i] != '\n',
        v.len() > 0 ==> !is_white_space(v[0]) && !is_white_space(v.last()),
    ensures
        normalized(echo + seq!['\n'] + (seq![' ', ' ', '-', '>', ' '] + v + seq!['\r', '\n'])) == v,
{
    let reply = seq![' ', ' ', '-', '>', ' '] + v + seq!['\r', '\n'];
    let line = seq![' ', ' ', '-', '>', ' '] + v + seq!['\r'];
    // The reply is one line.
    assert forall|i: int| 0 <= i < line.len() implies line[i] != '\n' by {
        if 5 <= i < 5 + v.len() {
            assert(line[i] == v[i - 5]);
        }
    }
    assert(reply =~= line + seq!['\n'] + Seq::<char>::empty());
    lemma_newline_after_echo(line, Seq::<char>::empty());
    assert(reply.take(line.len() as int) =~= line);
    assert(reply.skip(line.len() + 1 as int) =~= Seq::<char>::empty());
    assert(lines(Seq::<char>::empty()) =~= Seq::<Seq<char>>::empty());
    assert(lines(reply) =~= seq![line]);
    // The line holds the marker.
    assert(crate::serial::arrow_at(line, 2));
    crate::serial::lemma_arrow_trim(line);
    assert(first_arrow_line(lines(reply)) == Some(line));
    lemma_echo_skipped(echo, reply);
    // Trimming the line leaves "-> " + v (or "->" when v is empty).
    let w = seq!['-', '>', ' '] + v;
    assert(line.drop_first().drop_first() =~= w + seq!['\r']);
    assert(line[0] == ' ');
    assert(trim_start(line) == trim_start(line.drop_first()));
    assert(line.drop_first()[0] == ' ');
    assert(trim_start(line.drop_first()) == trim_start(line.drop_first().drop_first()));
    assert((w + seq!['\r'])[0] == '-');
    assert(trim_start(w + seq!['\r']) == w + seq!['\r']);
    assert(trim_start(line) == w + seq!['\r']);
    assert((w + seq!['\r']).drop_last() =~= w);
    if v.len() > 0 {
        assert(w.last() == v.last());
        assert((w + seq!['\r']).last() == '\r');
        assert(trim_end(w + seq!['\r']) == trim_end(w));
        assert(trim_end(w) == w);
        assert(trim_end(w + seq!['\r']) == w);
        assert(trim(line) == w);
        assert(w.skip(2) =~= seq![' '] + v);
        assert(w[0] == '-' && w[1] == '>');
        assert(strip_arrows(w) == strip_arrows(w.skip(2)));
        assert((seq![' '] + v)[0] == ' ');
        assert(strip_arrows(seq![' '] + v) == seq![' '] + v);
        assert(strip_arrows(w) == seq![' '] + v);
        assert((seq![' '] + v).drop_first() =~= v);
        assert(trim_start(seq![' '] + v) == trim_start(v));
        assert(trim_start(v) == v);
        assert(trim_end(v) == v);
    } else {
        assert(w =~= seq!['-', '>', ' ']);
        assert(w.drop_last() =~= seq!['-', '>']);
        assert(w.last() == ' ');
        assert(seq!['-', '>'].last() == '>');
        assert(trim_end(seq!['-', '>']) == seq!['-', '>']);
        assert(trim_end(w) == trim_end(w.drop_last()));
        assert(trim_end(w) == seq!['-', '>']);
        assert(trim(line) == seq!['-', '>']);
        assert(seq!['-', '>'].skip(2) =~= Seq::<char>::empty());
        let arrow = seq!['-', '>'];
        assert(arrow[0] == '-' && arrow[1] == '>');
        assert(strip_arrows(Seq::<char>::empty()) == Seq::<char>::empty());
        assert(strip_arrows(arrow) == strip_arrows(arrow.skip(2)));
        assert(strip_arrows(seq!['-', '>']) == Seq::<char>::empty());
        assert(v =~= Seq::<char>::empty());
    }
}

// ---------------------------------------------------------------------
// The connection line
// ---------------------------------------------------------------------

/// The connection line shows the baud rate and the refresh interval given in
/// the arguments: for the same port, equal lines mean equal baud rates and
/// equal intervals.
pub proof fn lemma_port_line_shows_baud_and_interval(a: Args, b: Args)
    requires
        a.port@ == b.port@,
        port_line_text(a) == port_line_text(b),
    ensures
        a.baud == b.baud,
        a.interval == b.interval,
{
    reveal_strlit("Port  : ");
    reveal_strlit(" @ ");
    reveal_strlit(" baud, interval: ");
    reveal_strlit(" s");
    reveal_strlit(" (press 'q' or Esc to quit)");
    let head = "Port  : "@ + a.port@ + " @ "@;
    let tail = |x: Args| {
        let t = decimal(x.interval as nat) + " s"@;
        if x.interval == 0 {
            t
        } else {
            t + " (press 'q' or Esc to quit)"@
        }
    };
    let ra = " baud, interval: "@ + tail(a);
    let rb = " baud, interval: "@ + tail(b);
    assert(port_line_text(a) =~= head + (decimal(a.baud as nat) + ra));
    assert(port_line_text(b) =~= head + (decimal(b.baud as nat) + rb));
    assert((head + (decimal(a.baud as nat) + ra)).skip(head.len() as int) =~= decimal(a.baud as nat) + ra);
    assert((head + (decimal(b.baud as nat) + rb)).skip(head.len() as int) =~= decimal(b.baud as nat) + rb);
    assert(ra[0] == ' ' && rb[0] == ' ');
    lemma_number_then_text(a.baud as nat, ra, b.baud as nat, rb);
    let n = " baud, interval: "@.len() as int;
    assert(ra.skip(n) =~= tail(a));
    assert(rb.skip(n) =~= tail(b));
    let sa = if a.interval == 0 { " s"@ } else { " s"@ + " (press 'q' or Esc to quit)"@ };
    let sb = if b.interval == 0 { " s"@ } else { " s"@ + " (press 'q' or Esc to quit)"@ };
    assert(tail(a) =~= decimal(a.interval as nat) + sa);
    assert(tail(b) =~= decimal(b.interval as nat) + sb);
    assert(sa[0] == ' ' && sb[0] == ' ');
    lemma_number_then_text(a.interval as nat, sa, b.interval as nat, sb);
}

} // verus!
