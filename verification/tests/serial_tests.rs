use meshcorestat::serial::{command_frame, normalize_line, port_listed, response_text, ResponseError};

#[test]
fn test_normalize_line_basic() {
    assert_eq!(normalize_line(" -> v1.13.0-295f67d (Build: 15-Feb-2026)\r\n"), "v1.13.0-295f67d (Build: 15-Feb-2026)");
    assert_eq!(normalize_line("  -> Heltec V4 OLED\n"), "Heltec V4 OLED");
    assert_eq!(normalize_line("-> something"), "something");
}

#[test]
fn test_normalize_line_with_echo_and_payload() {
    let raw = "stats-core\r\n  -> {\"battery_mv\":4157,\"uptime_secs\":21059}\r\n";
    assert_eq!(
        normalize_line(raw),
        "{\"battery_mv\":4157,\"uptime_secs\":21059}"
    );
}

#[test]
fn normalize_line_edges() {
    // No marker anywhere: the first line, trimmed.
    assert_eq!(normalize_line("  plain value \r\nsecond"), "plain value");
    assert_eq!(normalize_line(""), "");
    assert_eq!(normalize_line("\n-> later"), "later");
    assert_eq!(normalize_line("\r\n\r\n"), "");
    // Repeated markers are all removed, but only at the front.
    assert_eq!(normalize_line("->->x"), "x");
    assert_eq!(normalize_line("-> -> x"), "-> x");
    assert_eq!(normalize_line("a->b"), "a->b");
    // The first line with a marker wins.
    assert_eq!(normalize_line("echo\n -> one\n -> two"), "one");
    // Unicode white space is trimmed too.
    assert_eq!(normalize_line("\u{3000}-> wide\u{a0}"), "wide");
    assert_eq!(normalize_line("-> \u{e9}t\u{e9} "), "\u{e9}t\u{e9}");
}

#[test]
fn normalize_line_keeps_bare_values() {
    for v in ["Heltec V4 OLED", "x", "a -> b", "{\"recv\":1}"] {
        assert_eq!(normalize_line(v), v);
    }
}

#[test]
fn command_frame_appends_crlf() {
    assert_eq!(command_frame("ver"), "ver\r\n");
    assert_eq!(command_frame("get name"), "get name\r\n");
    assert_eq!(command_frame(""), "\r\n");
}

#[test]
fn port_listed_matches_exact_names() {
    let ports = vec!["/dev/ttyUSB0".to_string(), "COM12".to_string()];
    assert!(port_listed(&ports, "COM12"));
    assert!(!port_listed(&ports, "COM1"));
    assert!(!port_listed(&[], "COM12"));
}

#[test]
fn response_text_decodes_or_reports_silence() {
    assert_eq!(response_text(&[]), Err(ResponseError::NoResponse));
    assert_eq!(response_text(b"  -> v1\r\n"), Ok("  -> v1\r\n".to_string()));
    assert_eq!(response_text("\u{e9}".as_bytes()), Ok("\u{e9}".to_string()));
    // Invalid UTF-8 is replaced, not handed through.
    assert_eq!(response_text(&[0x66, 0xff, 0x67]), Ok("f\u{fffd}g".to_string()));
}
