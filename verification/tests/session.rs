use esp8266::channel::{ByteSink, RxQueue};
use esp8266::json::JsonValue;
use esp8266::Esp8266;
use esp8266::Esp8266Error;

fn engine_with_script(script: &[u8]) -> Esp8266 {
    let rx = RxQueue::new(16384);
    let tx = ByteSink::new(16384);
    let log = ByteSink::new(16384);
    let mut esp = Esp8266::new(rx, tx, log);
    let fed = esp.feed(script);
    assert_eq!(fed, script.len());
    esp
}

fn contains(hay: &[u8], needle: &[u8]) -> bool {
    hay.windows(needle.len()).any(|w| w == needle)
}

const HOST: &[u8] = b"192.168.0.147";
const PATH: &[u8] = b"/";

#[test]
fn get_end_to_end_without_framing() {
    let mut script = Vec::new();
    script.extend_from_slice(b"OK\r\n"); // connection open
    script.extend_from_slice(b"OK\r\n"); // transmission mode
    script.extend_from_slice(b"OK\r\n"); // send notification
    script.extend_from_slice(b"OK\r\n"); // raw request acknowledged
    script.extend_from_slice(
        b"HTTP/1.0 200 ...\r\n\r\nContent-Type: application/json\r\n\r\n[7,8]\r\nCLOSED\r\n",
    );
    let mut esp = engine_with_script(&script);
    let resp = esp.get(HOST, 5000, PATH).unwrap();
    assert_eq!(resp.code, 200);
    match resp.json {
        JsonValue::List(l) => assert_eq!(l, vec![7, 8]),
        other => panic!("expected a list, got {:?}", other),
    }
    let sent = esp.sent();
    assert!(contains(sent, b"AT+CIPSTART=\"TCP\",\"192.168.0.147\",5000\r\n"));
    assert!(contains(sent, b"AT+CIPMODE=0\r\n"));
    assert!(contains(sent, b"AT+CIPSEND=70\r\n"));
    assert!(contains(
        sent,
        b"GET / HTTP/1.1\r\nHost: 192.168.0.147:5000\r\nAccept: application/json\r\n\r\n",
    ));
}

#[test]
fn get_end_to_end_with_split_body() {
    let mut script = Vec::new();
    script.extend_from_slice(b"OK\r\n");
    script.extend_from_slice(b"OK\r\n");
    script.extend_from_slice(b"OK\r\n");
    script.extend_from_slice(b"OK\r\n");
    script.extend_from_slice(b"HTTP/1.0 200 ...\r\n\r\nContent-Type: application/json\r\n\r\n");
    script.extend_from_slice(b"\r\n+IPD,3:");
    script.extend_from_slice(b"[7,");
    script.extend_from_slice(b"\r\n+IPD,2:");
    script.extend_from_slice(b"8]");
    script.extend_from_slice(b"\r\nCLOSED\r\n");
    let mut esp = engine_with_script(&script);
    let resp = esp.get(HOST, 5000, PATH).unwrap();
    assert_eq!(resp.code, 200);
    match resp.json {
        JsonValue::List(l) => assert_eq!(l, vec![7, 8]),
        other => panic!("expected a list, got {:?}", other),
    }
}

#[test]
fn get_aborts_when_connection_open_fails() {
    let mut esp = engine_with_script(b"FAIL\r\n");
    match esp.get(HOST, 5000, PATH) {
        Err(Esp8266Error::Error(d)) => assert_eq!(d, b"FAIL".to_vec()),
        other => panic!("expected a protocol error, got {:?}", other),
    }
    // the send-notification step is never attempted
    assert!(!contains(esp.sent(), b"+CIPSEND"));
    assert!(!contains(esp.sent(), b"+CIPMODE"));
}

#[test]
fn get_reports_a_failed_acknowledgement() {
    let mut script = Vec::new();
    script.extend_from_slice(b"OK\r\nOK\r\nOK\r\n");
    script.extend_from_slice(b"ERROR\r\n"); // the raw request is refused
    let mut esp = engine_with_script(&script);
    match esp.get(HOST, 5000, PATH) {
        Err(Esp8266Error::GetError(d)) => assert_eq!(d, b"ERROR\r\n".to_vec()),
        other => panic!("expected an acknowledgement error, got {:?}", other),
    }
}

#[test]
fn get_without_status_line_is_a_parse_error() {
    let mut script = Vec::new();
    script.extend_from_slice(b"OK\r\nOK\r\nOK\r\nOK\r\n");
    script.extend_from_slice(b"hello\r\nCLOSED\r\n");
    let mut esp = engine_with_script(&script);
    assert!(matches!(
        esp.get(HOST, 5000, PATH),
        Err(Esp8266Error::ParseError)
    ));
}

#[test]
fn get_with_unsupported_body_is_a_json_error() {
    let mut script = Vec::new();
    script.extend_from_slice(b"OK\r\nOK\r\nOK\r\nOK\r\n");
    script.extend_from_slice(
        b"HTTP/1.0 200 ...\r\n\r\nContent-Type: application/json\r\n\r\n{}\r\nCLOSED\r\n",
    );
    let mut esp = engine_with_script(&script);
    assert!(matches!(
        esp.get(HOST, 5000, PATH),
        Err(Esp8266Error::JsonError)
    ));
}

#[test]
fn get_with_scalar_body() {
    let mut script = Vec::new();
    script.extend_from_slice(b"OK\r\nOK\r\nOK\r\nOK\r\n");
    script.extend_from_slice(
        b"HTTP/1.0 200 ...\r\n\r\nContent-Type: application/json\r\n\r\n42\r\nCLOSED\r\n",
    );
    let mut esp = engine_with_script(&script);
    let resp = esp.get(HOST, 5000, PATH).unwrap();
    assert_eq!(resp.code, 200);
    assert!(matches!(resp.json, JsonValue::Int(42)));
}

#[test]
fn stream_exactly_at_capacity_is_collected() {
    let mut script = Vec::new();
    script.extend_from_slice(b"OK\r\nOK\r\nOK\r\nOK\r\n");
    script.extend_from_slice(&vec![b'x'; 8182]);
    script.extend_from_slice(b"\r\nCLOSED\r\n");
    // the stream proper is 8192 bytes: collected whole, then refused only
    // for want of a status line
    let mut esp = engine_with_script(&script);
    assert!(matches!(
        esp.get(HOST, 5000, PATH),
        Err(Esp8266Error::ParseError)
    ));
}

#[test]
fn stream_one_over_capacity_is_an_overrun() {
    let mut script = Vec::new();
    script.extend_from_slice(b"OK\r\nOK\r\nOK\r\nOK\r\n");
    script.extend_from_slice(&vec![b'x'; 8183]);
    script.extend_from_slice(b"\r\nCLOSED\r\n");
    let mut esp = engine_with_script(&script);
    assert!(matches!(
        esp.get(HOST, 5000, PATH),
        Err(Esp8266Error::Overrun)
    ));
}

#[test]
fn get_times_out_when_the_stream_never_closes() {
    let mut script = Vec::new();
    script.extend_from_slice(b"OK\r\nOK\r\nOK\r\nOK\r\n");
    script.extend_from_slice(b"HTTP/1.0 200 ..."); // stream cut off
    let mut esp = engine_with_script(&script);
    assert!(matches!(
        esp.get(HOST, 5000, PATH),
        Err(Esp8266Error::Timeout)
    ));
}
