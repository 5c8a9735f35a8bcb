use std::collections::VecDeque;

use meshcorestat::app::{
    build_initial_state, format_duration, init_metric_series, node_name, refresh_secs,
    tick_update, AppState, MetricTable, HISTORY_LEN,
};
use meshcorestat::cli::Args;
use meshcorestat::model::{
    rate_per_sec, CoreStats, MetricKind, MetricSeries, NodeInfo, PacketStats, RadioStats,
    RateSample,
};

fn args_with(metrics: &[&str], interval: u64) -> Args {
    Args {
        port: "COM12".to_string(),
        baud: 115_200,
        interval,
        metrics: metrics.iter().map(|m| m.to_string()).collect(),
        debug: false,
    }
}

fn core_stats() -> CoreStats {
    CoreStats { battery_mv: 4157, uptime_secs: 21059, errors: 0, queue_len: 0 }
}

fn radio() -> RadioStats {
    RadioStats {
        noise_floor: -88,
        last_rssi: -89,
        last_snr_bits: (-5.25f32).to_bits(),
        tx_air_secs: 384,
        rx_air_secs: 1462,
    }
}

fn packets(recv: u64, sent: u64) -> PacketStats {
    PacketStats {
        recv,
        sent,
        flood_tx: 953,
        direct_tx: 23,
        flood_rx: 3615,
        direct_rx: 110,
        recv_errors: 776,
    }
}

fn node() -> NodeInfo {
    NodeInfo {
        version: "v1.13.0".to_string(),
        board: "Heltec V4 OLED".to_string(),
        name: "UZAO".to_string(),
    }
}

fn series_values(t: &MetricTable, kind: MetricKind) -> Vec<RateSample> {
    t.get(kind).expect("metric followed").values.iter().copied().collect()
}

#[test]
fn test_format_duration_variants() {
    assert_eq!(format_duration(5), "5s");
    assert_eq!(format_duration(75), "1m 15s");
    assert_eq!(format_duration(3_700), "1h 1m 40s");
    assert_eq!(format_duration(90_000), "1d 1h 0m 0s");
}

#[test]
fn format_duration_edges() {
    assert_eq!(format_duration(0), "0s");
    assert_eq!(format_duration(59), "59s");
    assert_eq!(format_duration(60), "1m 0s");
    assert_eq!(format_duration(3_600), "1h 0m 0s");
    assert_eq!(format_duration(86_399), "23h 59m 59s");
    assert_eq!(format_duration(86_400), "1d 0h 0m 0s");
    assert_eq!(format_duration(21_059), "5h 50m 59s");
    assert_eq!(
        format_duration(u64::MAX),
        "213503982334601d 7h 0m 15s"
    );
}

#[test]
fn format_duration_distinct_for_distinct_durations() {
    let texts: Vec<String> = (0..2000u64).map(|s| format_duration(s * 37)).collect();
    for i in 0..texts.len() {
        for j in (i + 1)..texts.len() {
            assert_ne!(texts[i], texts[j]);
        }
    }
}

#[test]
fn test_rate_per_sec_basic() {
    // Normal increasing counter.
    let r = rate_per_sec(110, 100, 5);
    assert!((r.count as f64 / r.secs as f64 - 2.0).abs() < 1e-6);
    // A counter reset gives no negative rate.
    let r = rate_per_sec(5, 10, 5);
    assert_eq!(r.count as f64 / r.secs as f64, 0.0);
}

#[test]
fn rate_per_sec_exact() {
    assert_eq!(rate_per_sec(110, 100, 5), RateSample { count: 10, secs: 5 });
    assert_eq!(rate_per_sec(5, 10, 5), RateSample { count: 0, secs: 5 });
    assert_eq!(rate_per_sec(7, 7, 1), RateSample { count: 0, secs: 1 });
    assert_eq!(rate_per_sec(u64::MAX, 0, 3), RateSample { count: u64::MAX, secs: 3 });
}

#[test]
fn refresh_secs_is_at_least_one() {
    assert_eq!(refresh_secs(0), 1);
    assert_eq!(refresh_secs(1), 1);
    assert_eq!(refresh_secs(7), 7);
}

#[test]
fn series_keeps_latest_samples() {
    let mut s = MetricSeries::new(3);
    for i in 0..5u64 {
        s.push(RateSample { count: i, secs: 1 });
        assert!(s.values.len() <= 3);
        assert_eq!(*s.values.back().unwrap(), RateSample { count: i, secs: 1 });
    }
    let kept: Vec<u64> = s.values.iter().map(|r| r.count).collect();
    assert_eq!(kept, vec![2, 3, 4]);
    assert_eq!(s.max_len, 3);
}

#[test]
fn series_of_zero_capacity_keeps_growing() {
    let mut s = MetricSeries::new(0);
    s.push(RateSample { count: 1, secs: 1 });
    s.push(RateSample { count: 2, secs: 1 });
    assert_eq!(s.values.len(), 2);
}

#[test]
fn series_push_on_full_history_drops_oldest() {
    let mut s = MetricSeries { values: VecDeque::new(), max_len: 1 };
    s.push(RateSample { count: 1, secs: 2 });
    s.push(RateSample { count: 9, secs: 2 });
    assert_eq!(s.values.iter().copied().collect::<Vec<_>>(), vec![RateSample { count: 9, secs: 2 }]);
}

#[test]
fn table_follow_is_insert_if_absent() {
    let mut t = MetricTable::new();
    assert!(!t.contains(MetricKind::FloodTx));
    assert!(t.get(MetricKind::FloodTx).is_none());
    t.follow(MetricKind::FloodTx, 4);
    assert!(t.contains(MetricKind::FloodTx));
    assert_eq!(t.get(MetricKind::FloodTx).unwrap().max_len, 4);
    t.follow(MetricKind::FloodTx, 9);
    assert_eq!(t.get(MetricKind::FloodTx).unwrap().max_len, 4);
    assert!(!t.contains(MetricKind::RecvErrors));
}

#[test]
fn init_without_names_follows_recv_and_sent() {
    let mut state = AppState::new(node(), core_stats(), radio(), packets(1, 2));
    init_metric_series(&mut state, &[]);
    for kind in [
        MetricKind::BatteryMv,
        MetricKind::LastRssi,
        MetricKind::LastSnr,
        MetricKind::FloodTx,
        MetricKind::FloodRx,
        MetricKind::DirectTx,
        MetricKind::DirectRx,
        MetricKind::RecvErrors,
    ] {
        assert!(!state.metrics.contains(kind));
    }
    assert!(state.metrics.contains(MetricKind::RecvPackets));
    assert!(state.metrics.contains(MetricKind::SentPackets));
    assert_eq!(state.metrics.get(MetricKind::RecvPackets).unwrap().max_len, HISTORY_LEN);
    assert_eq!(HISTORY_LEN, 60);
}

#[test]
fn init_with_names_follows_known_names_only() {
    let mut state = AppState::new(node(), core_stats(), radio(), packets(1, 2));
    let names: Vec<String> = ["battery_mv", "bogus", "recv_packets", "recv"]
        .iter()
        .map(|s| s.to_string())
        .collect();
    init_metric_series(&mut state, &names);
    assert!(state.metrics.contains(MetricKind::BatteryMv));
    assert!(state.metrics.contains(MetricKind::RecvPackets));
    assert!(!state.metrics.contains(MetricKind::SentPackets));

    let mut only_unknown = AppState::new(node(), core_stats(), radio(), packets(1, 2));
    init_metric_series(&mut only_unknown, &["nope".to_string()]);
    assert!(!only_unknown.metrics.contains(MetricKind::RecvPackets));
    assert!(!only_unknown.metrics.contains(MetricKind::SentPackets));
}

#[test]
fn init_twice_keeps_histories() {
    let mut state = AppState::new(node(), core_stats(), radio(), packets(1, 2));
    let names = vec!["sent".to_string()];
    init_metric_series(&mut state, &names);
    tick_update(&mut state, core_stats(), radio(), packets(1, 7), 2);
    let before = series_values(&state.metrics, MetricKind::SentPackets);
    init_metric_series(&mut state, &names);
    assert_eq!(series_values(&state.metrics, MetricKind::SentPackets), before);
    assert_eq!(before, vec![RateSample { count: 5, secs: 2 }]);
}

#[test]
fn tick_records_counter_growth() {
    let mut state = AppState::new(node(), core_stats(), radio(), packets(100, 50));
    init_metric_series(
        &mut state,
        &["recv".to_string(), "sent".to_string(), "battery_mv".to_string()],
    );
    tick_update(&mut state, core_stats(), radio(), packets(110, 40), 5);
    assert_eq!(state.packets.recv, 110);
    assert_eq!(state.packets.sent, 40);
    assert_eq!(series_values(&state.metrics, MetricKind::RecvPackets), vec![RateSample { count: 10, secs: 5 }]);
    // The sent counter went down: a reset, so a zero rate.
    assert_eq!(series_values(&state.metrics, MetricKind::SentPackets), vec![RateSample { count: 0, secs: 5 }]);
    // Battery is no packet counter.
    assert_eq!(series_values(&state.metrics, MetricKind::BatteryMv), vec![RateSample { count: 0, secs: 5 }]);
    // Interval 0 counts as one second.
    tick_update(&mut state, core_stats(), radio(), packets(110, 40), 0);
    assert_eq!(
        series_values(&state.metrics, MetricKind::RecvPackets),
        vec![RateSample { count: 10, secs: 5 }, RateSample { count: 0, secs: 1 }]
    );
    assert_eq!(state.core.battery_mv, 4157);
}

#[test]
fn tick_stores_all_three_replies() {
    let mut state = AppState::new(node(), core_stats(), radio(), packets(1, 1));
    let new_core = CoreStats { battery_mv: 3900, uptime_secs: 99, errors: 2, queue_len: 1 };
    let new_radio = RadioStats {
        noise_floor: -100,
        last_rssi: -70,
        last_snr_bits: 7.5f32.to_bits(),
        tx_air_secs: 5,
        rx_air_secs: 6,
    };
    tick_update(&mut state, new_core, new_radio, packets(4, 9), 3);
    assert_eq!(state.core.battery_mv, 3900);
    assert_eq!(state.core.uptime_secs, 99);
    assert_eq!(state.radio.noise_floor, -100);
    assert_eq!(f32::from_bits(state.radio.last_snr_bits), 7.5);
    assert_eq!(state.packets.recv, 4);
    assert_eq!(state.packets.sent, 9);
    assert_eq!(state.node.name, "UZAO");
}

#[test]
fn tick_history_is_bounded() {
    let mut state = AppState::new(node(), core_stats(), radio(), packets(0, 0));
    init_metric_series(&mut state, &[]);
    for i in 1..=(HISTORY_LEN as u64 + 10) {
        tick_update(&mut state, core_stats(), radio(), packets(i * 3, 0), 1);
    }
    let recv = series_values(&state.metrics, MetricKind::RecvPackets);
    assert_eq!(recv.len(), HISTORY_LEN);
    assert!(recv.iter().all(|r| *r == RateSample { count: 3, secs: 1 }));
}

#[test]
fn node_name_drops_prompt_marks() {
    assert_eq!(node_name("> UZAO Teply Stan 100500"), "UZAO Teply Stan 100500");
    assert_eq!(node_name(" -> >> name  "), "name");
    assert_eq!(node_name("plain"), "plain");
    assert_eq!(node_name(""), "");
}

#[test]
fn build_initial_state_from_replies() {
    let args = args_with(&[], 2);
    let state = build_initial_state(
        &args,
        "v1.13.0-295f67d (Build: 15-Feb-2026)".to_string(),
        "Heltec V4 OLED".to_string(),
        "> UZAO Teply Stan 100500",
        core_stats(),
        radio(),
        packets(3725, 976),
    );
    assert_eq!(state.node.name, "UZAO Teply Stan 100500");
    assert_eq!(state.node.board, "Heltec V4 OLED");
    assert_eq!(state.node.version, "v1.13.0-295f67d (Build: 15-Feb-2026)");
    assert_eq!(state.packets.recv, 3725);
    assert_eq!(f32::from_bits(state.radio.last_snr_bits), -5.25);
    assert!(state.metrics.contains(MetricKind::RecvPackets));
    assert!(state.metrics.contains(MetricKind::SentPackets));
    assert!(state.metrics.get(MetricKind::RecvPackets).unwrap().values.is_empty());
}
