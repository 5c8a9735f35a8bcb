//! What the dashboard shows and when it refreshes: the text of its
//! integer-valued lines, and the decisions of its event loop.
use vstd::prelude::*;
use vstd::string::StringExecFns;

use crate::app::{duration_text, format_duration, refresh_period, AppState};
use crate::cli::Args;
use crate::text::{decimal, push_decimal, push_signed_decimal, signed_decimal};

verus! {

/// A duration as the dashboard shows it: the readable form, then the number
/// of seconds in parentheses.
pub open spec fn duration_with_secs_text(secs: nat) -> Seq<char> {
    duration_text(secs) + " ("@ + decimal(secs) + ")"@
}

/// A duration as the dashboard shows it, e.g. `1m 15s (75)`.
pub fn duration_with_secs(secs: u64) -> (r: String)
    ensures
        r@ == duration_with_secs_text(secs as nat),
{
    let mut r = format_duration(secs);
    r.append(" (");
    push_decimal(&mut r, secs);
    r.append(")");
    r
}

/// `label` followed by `value`.
fn labelled(label: &str, value: &str) -> (r: String)
    ensures
        r@ == label@ + value@,
{
    let mut r = label.to_owned();
    r.append(value);
    r
}

/// `label`, the decimal text of `n`, then `unit`.
fn labelled_number(label: &str, n: u64, unit: &str) -> (r: String)
    ensures
        r@ == label@ + decimal(n as nat) + unit@,
{
    let mut r = label.to_owned();
    push_decimal(&mut r, n);
    r.append(unit);
    r
}

/// `label`, the decimal text of the signed `n`, then `unit`.
fn labelled_signed(label: &str, n: i32, unit: &str) -> (r: String)
    ensures
        r@ == label@ + signed_decimal(n as int) + unit@,
{
    let mut r = label.to_owned();
    push_signed_decimal(&mut r, n as i64);
    r.append(unit);
    r
}

/// The views of a list of lines.
pub open spec fn texts(lines: Seq<String>) -> Seq<Seq<char>> {
    lines.map_values(|l: String| l@)
}

/// The connection line of the Node block: port, baud rate and refresh
/// interval; in live mode it also says how to quit.
pub open spec fn port_line_text(args: Args) -> Seq<char> {
    let base = "Port  : "@ + args.port@ + " @ "@ + decimal(args.baud as nat) + " baud, interval: "@
        + decimal(args.interval as nat) + " s"@;
    if args.interval == 0 {
        base
    } else {
        base + " (press 'q' or Esc to quit)"@
    }
}

/// The lines of the Node block.
pub open spec fn header_text(state: AppState, args: Args) -> Seq<Seq<char>> {
    seq![
        "Name  : "@ + state.node.name@,
        "Board : "@ + state.node.board@,
        "FW    : "@ + state.node.version@,
        port_line_text(args),
    ]
}

/// The lines of the Node block: name, board, firmware and connection.
pub fn header_lines(state: &AppState, args: &Args) -> (r: Vec<String>)
    ensures
        texts(r@) == header_text(*state, *args),
{
    let mut port_line = labelled("Port  : ", args.port.as_str());
    port_line.append(" @ ");
    push_decimal(&mut port_line, args.baud as u64);
    port_line.append(" baud, interval: ");
    push_decimal(&mut port_line, args.interval);
    port_line.append(" s");
    if args.interval != 0 {
        port_line.append(" (press 'q' or Esc to quit)");
    }
    let mut r: Vec<String> = Vec::new();
    r.push(labelled("Name  : ", state.node.name.as_str()));
    r.push(labelled("Board : ", state.node.board.as_str()));
    r.push(labelled("FW    : ", state.node.version.as_str()));
    r.push(port_line);
    assert(texts(r@) =~= header_text(*state, *args));
    r
}

/// The lines of the Core block.
pub open spec fn core_text(state: AppState) -> Seq<Seq<char>> {
    seq![
        "Battery : "@ + signed_decimal(state.core.battery_mv as int) + " mV"@,
        "Uptime  : "@ + duration_with_secs_text(state.core.uptime_secs as nat),
        "Errors  : "@ + decimal(state.core.errors as nat),
        "Queue   : "@ + decimal(state.core.queue_len as nat),
    ]
}

/// The lines of the Core block: battery, uptime, errors and queue length.
pub fn core_lines(state: &AppState) -> (r: Vec<String>)
    ensures
        texts(r@) == core_text(*state),
{
    let mut r: Vec<String> = Vec::new();
    r.push(labelled_signed("Battery : ", state.core.battery_mv, " mV"));
    let uptime = duration_with_secs(state.core.uptime_secs);
    r.push(labelled("Uptime  : ", uptime.as_str()));
    r.push(labelled_number("Errors  : ", state.core.errors, ""));
    r.push(labelled_number("Queue   : ", state.core.queue_len, ""));
    proof {
        reveal_strlit("");
    }
    assert(texts(r@) =~= core_text(*state));
    r
}

/// The first lines of the Radio block: the levels the node measures.
pub open spec fn radio_level_text(state: AppState) -> Seq<Seq<char>> {
    seq![
        "Noise floor : "@ + signed_decimal(state.radio.noise_floor as int) + " dBm"@,
        "Last RSSI   : "@ + signed_decimal(state.radio.last_rssi as int) + " dBm"@,
    ]
}

/// The first lines of the Radio block: noise floor and last RSSI.
pub fn radio_level_lines(state: &AppState) -> (r: Vec<String>)
    ensures
        texts(r@) == radio_level_text(*state),
{
    let mut r: Vec<String> = Vec::new();
    r.push(labelled_signed("Noise floor : ", state.radio.noise_floor, " dBm"));
    r.push(labelled_signed("Last RSSI   : ", state.radio.last_rssi, " dBm"));
    assert(texts(r@) =~= radio_level_text(*state));
    r
}

/// The lines of the Packets (total) block.
pub open spec fn packet_text(state: AppState) -> Seq<Seq<char>> {
    seq![
        "Recv        : "@ + decimal(state.packets.recv as nat),
        "Sent        : "@ + decimal(state.packets.sent as nat),
        "Flood TX    : "@ + decimal(state.packets.flood_tx as nat),
        "Direct TX   : "@ + decimal(state.packets.direct_tx as nat),
        "Flood RX    : "@ + decimal(state.packets.flood_rx as nat),
        "Direct RX   : "@ + decimal(state.packets.direct_rx as nat),
        "Recv errors : "@ + decimal(state.packets.recv_errors as nat),
    ]
}

/// The lines of the Packets (total) block: the cumulative counters.
pub fn packet_lines(state: &AppState) -> (r: Vec<String>)
    ensures
        texts(r@) == packet_text(*state),
{
    proof {
        reveal_strlit("");
    }
    let mut r: Vec<String> = Vec::new();
    r.push(labelled_number("Recv        : ", state.packets.recv, ""));
    r.push(labelled_number("Sent        : ", state.packets.sent, ""));
    r.push(labelled_number("Flood TX    : ", state.packets.flood_tx, ""));
    r.push(labelled_number("Direct TX   : ", state.packets.direct_tx, ""));
    r.push(labelled_number("Flood RX    : ", state.packets.flood_rx, ""));
    r.push(labelled_number("Direct RX   : ", state.packets.direct_rx, ""));
    r.push(labelled_number("Recv errors : ", state.packets.recv_errors, ""));
    assert(texts(r@) =~= packet_text(*state));
    r
}

/// How the dashboard runs: a single snapshot, or live with a refresh period.
#[derive(Debug, Clone, Copy, PartialEq, Eq, Structural)]
pub enum UiMode {
    Snapshot,
    Live { refresh_secs: u64 },
}

/// Interval 0 draws one snapshot and exits; any other interval refreshes
/// the dashboard every `interval` seconds.
pub fn ui_mode(interval: u64) -> (r: UiMode)
    ensures
        r == if interval == 0 {
            UiMode::Snapshot
        } else {
            UiMode::Live { refresh_secs: refresh_period(interval) }
        },
{
    if interval == 0 {
        UiMode::Snapshot
    } else {
        UiMode::Live { refresh_secs: interval }
    }
}

/// A key the user pressed, as far as the dashboard tells keys apart.
#[derive(Debug, Clone, Copy, PartialEq, Eq, Structural)]
pub enum UiKey {
    Char(char),
    Esc,
    Other,
}

/// What the live dashboard does after it has waited for a key.
#[derive(Debug, Clone, Copy, PartialEq, Eq, Structural)]
pub enum LoopAction {
    /// Leave the dashboard.
    Quit,
    /// Poll the node, then draw again.
    Tick,
    /// Draw again.
    Wait,
}

/// Keys that leave the dashboard: `q` and Esc.
pub open spec fn quits(key: UiKey) -> bool {
    key == UiKey::Char('q') || key == UiKey::Esc
}

/// The decision of one turn of the live loop, given the key pressed while
/// waiting (if any) and whether a refresh period has passed since the last
/// poll: a quitting key wins over a due poll.
pub fn next_action(key: Option<UiKey>, tick_due: bool) -> (r: LoopAction)
    ensures
        r == if key matches Some(k) && quits(k) {
            LoopAction::Quit
        } else if tick_due {
            LoopAction::Tick
        } else {
            LoopAction::Wait
        },
{
    let quit = match key {
        Some(UiKey::Char(c)) => c == 'q',
        Some(UiKey::Esc) => true,
        _ => false,
    };
    if quit {
        LoopAction::Quit
    } else if tick_due {
        LoopAction::Tick
    } else {
        LoopAction::Wait
    }
}

} // verus!
