use meshcorestat::model::MetricKind;

#[test]
fn test_metric_from_str() {
    assert!(matches!(MetricKind::from_str("battery_mv"), Some(MetricKind::BatteryMv)));
    assert!(matches!(MetricKind::from_str("last_rssi"), Some(MetricKind::LastRssi)));
    assert!(matches!(MetricKind::from_str("recv"), Some(MetricKind::RecvPackets)));
    assert!(MetricKind::from_str("unknown").is_none());
}

#[test]
fn metric_from_str_all_names() {
    let cases = [
        ("battery_mv", MetricKind::BatteryMv),
        ("last_rssi", MetricKind::LastRssi),
        ("last_snr", MetricKind::LastSnr),
        ("recv", MetricKind::RecvPackets),
        ("recv_packets", MetricKind::RecvPackets),
        ("sent", MetricKind::SentPackets),
        ("sent_packets", MetricKind::SentPackets),
        ("flood_tx", MetricKind::FloodTx),
        ("flood_rx", MetricKind::FloodRx),
        ("direct_tx", MetricKind::DirectTx),
        ("direct_rx", MetricKind::DirectRx),
        ("recv_errors", MetricKind::RecvErrors),
    ];
    for (name, kind) in cases {
        assert_eq!(MetricKind::from_str(name), Some(kind));
    }
}

#[test]
fn metric_from_str_is_exact() {
    for name in ["", "Recv", "recv ", " recv", "battery", "battery_mvx", "snr"] {
        assert_eq!(MetricKind::from_str(name), None);
    }
}

#[test]
fn metric_slots_round_trip() {
    for i in 0..10usize {
        assert_eq!(MetricKind::at_slot(i).slot(), i);
    }
    assert_eq!(MetricKind::RecvErrors.slot(), 9);
}
