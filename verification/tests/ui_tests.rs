use meshcorestat::app::AppState;
use meshcorestat::cli::Args;
use meshcorestat::model::{CoreStats, NodeInfo, PacketStats, RadioStats};
use meshcorestat::ui::{
    core_lines, duration_with_secs, header_lines, next_action, packet_lines, radio_level_lines,
    ui_mode, LoopAction, UiKey, UiMode,
};

fn state() -> AppState {
    AppState::new(
        NodeInfo {
            version: "v1.13.0-295f67d (Build: 15-Feb-2026)".to_string(),
            board: "Heltec V4 OLED".to_string(),
            name: "UZAO Teply Stan 100500".to_string(),
        },
        CoreStats { battery_mv: 4157, uptime_secs: 21059, errors: 0, queue_len: 3 },
        RadioStats {
            noise_floor: -88,
            last_rssi: -89,
            last_snr_bits: (-5.25f32).to_bits(),
            tx_air_secs: 384,
            rx_air_secs: 1462,
        },
        PacketStats {
            recv: 3725,
            sent: 976,
            flood_tx: 953,
            direct_tx: 23,
            flood_rx: 3615,
            direct_rx: 110,
            recv_errors: 776,
        },
    )
}

fn args(interval: u64) -> Args {
    Args { port: "COM12".to_string(), baud: 115_200, interval, metrics: vec![], debug: false }
}

#[test]
fn header_lines_snapshot_and_live() {
    let s = state();
    assert_eq!(
        header_lines(&s, &args(0)),
        vec![
            "Name  : UZAO Teply Stan 100500",
            "Board : Heltec V4 OLED",
            "FW    : v1.13.0-295f67d (Build: 15-Feb-2026)",
            "Port  : COM12 @ 115200 baud, interval: 0 s",
        ]
    );
    assert_eq!(
        header_lines(&s, &args(2))[3],
        "Port  : COM12 @ 115200 baud, interval: 2 s (press 'q' or Esc to quit)"
    );
}

#[test]
fn core_radio_packet_lines() {
    let s = state();
    assert_eq!(
        core_lines(&s),
        vec!["Battery : 4157 mV", "Uptime  : 5h 50m 59s (21059)", "Errors  : 0", "Queue   : 3"]
    );
    assert_eq!(radio_level_lines(&s), vec!["Noise floor : -88 dBm", "Last RSSI   : -89 dBm"]);
    assert_eq!(
        packet_lines(&s),
        vec![
            "Recv        : 3725",
            "Sent        : 976",
            "Flood TX    : 953",
            "Direct TX   : 23",
            "Flood RX    : 3615",
            "Direct RX   : 110",
            "Recv errors : 776",
        ]
    );
}

#[test]
fn signed_values_render_like_display() {
    let mut s = state();
    s.core.battery_mv = i32::MIN;
    s.radio.noise_floor = 0;
    s.radio.last_rssi = i32::MAX;
    assert_eq!(core_lines(&s)[0], format!("Battery : {} mV", i32::MIN));
    assert_eq!(radio_level_lines(&s), vec!["Noise floor : 0 dBm".to_string(), format!("Last RSSI   : {} dBm", i32::MAX)]);
}

#[test]
fn duration_with_secs_examples() {
    assert_eq!(duration_with_secs(384), "6m 24s (384)");
    assert_eq!(duration_with_secs(0), "0s (0)");
}

#[test]
fn ui_mode_by_interval() {
    assert_eq!(ui_mode(0), UiMode::Snapshot);
    assert_eq!(ui_mode(2), UiMode::Live { refresh_secs: 2 });
}

#[test]
fn next_action_quit_wins() {
    assert_eq!(next_action(Some(UiKey::Char('q')), true), LoopAction::Quit);
    assert_eq!(next_action(Some(UiKey::Esc), false), LoopAction::Quit);
    assert_eq!(next_action(Some(UiKey::Char('Q')), true), LoopAction::Tick);
    assert_eq!(next_action(Some(UiKey::Other), false), LoopAction::Wait);
    assert_eq!(next_action(None, true), LoopAction::Tick);
    assert_eq!(next_action(None, false), LoopAction::Wait);
}
