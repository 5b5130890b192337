use esp8266::channel::{ByteSink, RxQueue};
use esp8266::Esp8266;
use esp8266::Esp8266Error;

fn engine_with_script(script: &[u8]) -> Esp8266 {
    let rx = RxQueue::new(16384);
    let tx = ByteSink::new(16384);
    let log = ByteSink::new(16384);
    let mut esp = Esp8266::new(rx, tx, log);
    let fed = esp.feed(script);
    assert_eq!(fed, script.len());
    esp
}

fn contains(hay: &[u8], needle: &[u8]) -> bool {
    hay.windows(needle.len()).any(|w| w == needle)
}

#[test]
fn bring_up_sends_echo_off_and_drains_noise() {
    let mut rx = RxQueue::new(64);
    for b in b"power-on garbage\r\nready\r\n" {
        rx.push(*b);
    }
    let esp = Esp8266::new(rx, ByteSink::new(64), ByteSink::new(64));
    assert_eq!(esp.sent(), b"ATE0\r\n");
    assert_eq!(esp.pending(), 0);
}

#[test]
fn queue_drops_bytes_beyond_capacity() {
    let mut rx = RxQueue::new(2);
    assert!(rx.push(1));
    assert!(rx.push(2));
    assert!(!rx.push(3));
    assert_eq!(rx.pop(), Some(1));
    assert_eq!(rx.pop(), Some(2));
    assert_eq!(rx.pop(), None);
}

#[test]
fn feed_reports_how_much_fit() {
    let rx = RxQueue::new(4);
    let mut esp = Esp8266::new(rx, ByteSink::new(64), ByteSink::new(64));
    let fed = esp.feed(b"abcdef");
    assert_eq!(fed, 4);
    assert_eq!(esp.pending(), 4);
}

#[test]
fn communicate_success_needs_the_ok_token() {
    let mut esp = engine_with_script(b"\r\nOK\r\n");
    let resp = esp.communicate(b"+CWMODE=1", true).unwrap();
    assert_eq!(resp, b"OK".to_vec());
    assert!(esp.sent().ends_with(b"AT+CWMODE=1\r\n"));
}

#[test]
fn communicate_failure_carries_the_trimmed_response() {
    let mut esp = engine_with_script(b"\r\nERROR\r\n");
    match esp.communicate(b"+CWMODE=1", true) {
        Err(Esp8266Error::Error(d)) => assert_eq!(d, b"ERROR".to_vec()),
        other => panic!("expected a protocol error, got {:?}", other),
    }
}

#[test]
fn communicate_failure_on_fail_marker() {
    let mut esp = engine_with_script(b"\r\nFAIL\r\n");
    match esp.communicate(b"+CWJAP=\"a\",\"b\"", true) {
        Err(Esp8266Error::Error(d)) => assert_eq!(d, b"FAIL".to_vec()),
        other => panic!("expected a protocol error, got {:?}", other),
    }
}

#[test]
fn marker_inside_payload_does_not_end_the_read() {
    // "OK\r\n" appears at the buffer tail after ordinary payload bytes, not
    // preceded by a line feed: accumulation must go on to the real marker.
    let mut esp = engine_with_script(b"xOK\r\n\r\nOK\r\n");
    let resp = esp.communicate(b"", true).unwrap();
    assert_eq!(resp, b"xOK\r\n\r\nOK".to_vec());
}

#[test]
fn response_exactly_at_capacity_is_read() {
    let mut script = vec![b'x'; 506];
    script.extend_from_slice(b"\r\nOK\r\n");
    assert_eq!(script.len(), 512);
    let mut esp = engine_with_script(&script);
    let resp = esp.communicate(b"", true).unwrap();
    assert!(resp.starts_with(b"xxx"));
    assert!(resp.ends_with(b"OK"));
}

#[test]
fn response_one_over_capacity_is_an_overrun() {
    let mut script = vec![b'x'; 507];
    script.extend_from_slice(b"\r\nOK\r\n");
    assert_eq!(script.len(), 513);
    let mut esp = engine_with_script(&script);
    assert!(matches!(
        esp.communicate(b"", true),
        Err(Esp8266Error::Overrun)
    ));
}

#[test]
fn exhausted_source_is_a_timeout() {
    let mut esp = engine_with_script(b"");
    assert!(matches!(
        esp.communicate(b"", true),
        Err(Esp8266Error::Timeout)
    ));
}

#[test]
fn partial_response_without_marker_is_a_timeout() {
    let mut esp = engine_with_script(b"\r\nOK");
    assert!(matches!(
        esp.communicate(b"", true),
        Err(Esp8266Error::Timeout)
    ));
}

#[test]
fn full_write_channel_is_a_transport_error() {
    let rx = RxQueue::new(64);
    let tx = ByteSink::new(10);
    let mut esp = Esp8266::new(rx, tx, ByteSink::new(64));
    esp.feed(b"\r\nOK\r\n");
    assert!(matches!(
        esp.communicate(b"+CWMODE=1", true),
        Err(Esp8266Error::Transport)
    ));
}

#[test]
fn at_probe_round_trip() {
    let mut esp = engine_with_script(b"\r\nOK\r\n");
    esp.at().unwrap();
    assert!(esp.sent().ends_with(b"AT\r\n"));
}

#[test]
fn reset_sends_and_drains() {
    let mut esp = engine_with_script(b"whatever the module prints while rebooting");
    esp.reset().unwrap();
    assert!(esp.sent().ends_with(b"AT+RST\r\n"));
    assert_eq!(esp.pending(), 0);
}

#[test]
fn connect_wifi_runs_both_steps() {
    let mut esp = engine_with_script(b"\r\nOK\r\n\r\nOK\r\n");
    esp.connect_wifi(b"myssid", b"secret").unwrap();
    let sent = esp.sent();
    assert!(contains(sent, b"AT+CWMODE=1\r\n"));
    assert!(contains(sent, b"AT+CWJAP=\"myssid\",\"secret\"\r\n"));
}

#[test]
fn connect_wifi_stops_after_mode_select_failure() {
    let mut esp = engine_with_script(b"\r\nERROR\r\n");
    match esp.connect_wifi(b"myssid", b"secret") {
        Err(Esp8266Error::Error(d)) => assert_eq!(d, b"ERROR".to_vec()),
        other => panic!("expected a protocol error, got {:?}", other),
    }
    assert!(!contains(esp.sent(), b"+CWJAP"));
}

#[test]
fn exchanges_are_mirrored_to_the_diagnostic_channel() {
    let mut esp = engine_with_script(b"\r\nOK\r\n");
    esp.communicate(b"+CWMODE=1", true).unwrap();
    let logged = esp.logged();
    assert!(contains(logged, b"+CWMODE=1"));
    assert!(contains(logged, b"OK"));
}
