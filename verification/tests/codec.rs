use esp8266::commands::{cipsend, http_get_payload, set_wifi_ap, start_tcp_connection};
use esp8266::http::decode;
use esp8266::json::{decode_body, JsonValue};
use esp8266::reassemble::reassemble;
use esp8266::Esp8266Error;

#[test]
fn join_command_renders_quoted_parameters() {
    let cmd = set_wifi_ap(b"myssid", b"secret").unwrap();
    assert_eq!(cmd, b"+CWJAP=\"myssid\",\"secret\"\r\n".to_vec());
}

#[test]
fn join_command_rejects_oversized_credentials() {
    let long = [b'a'; 200];
    assert!(set_wifi_ap(&long, b"pw").is_err());
}

#[test]
fn connection_open_command_renders_host_and_port() {
    let cmd = start_tcp_connection(b"192.168.0.147", 5000).unwrap();
    assert_eq!(cmd, b"+CIPSTART=\"TCP\",\"192.168.0.147\",5000\r\n".to_vec());
}

#[test]
fn connection_open_command_renders_port_zero() {
    let cmd = start_tcp_connection(b"h", 0).unwrap();
    assert_eq!(cmd, b"+CIPSTART=\"TCP\",\"h\",0\r\n".to_vec());
}

#[test]
fn send_notification_carries_exact_length() {
    assert_eq!(cipsend(74), b"+CIPSEND=74".to_vec());
    assert_eq!(cipsend(0), b"+CIPSEND=0".to_vec());
    assert_eq!(cipsend(65535), b"+CIPSEND=65535".to_vec());
}

#[test]
fn http_request_renders_host_port_path() {
    let req = http_get_payload(b"192.168.0.147", 5000, b"/");
    assert_eq!(
        req,
        b"GET / HTTP/1.1\r\nHost: 192.168.0.147:5000\r\nAccept: application/json\r\n\r\n".to_vec()
    );
}

#[test]
fn reassemble_is_identity_without_framing() {
    let raw = b"HTTP/1.0 200 OK\r\nContent-Type: application/json\r\n\r\n[1,2]\r\n";
    assert_eq!(reassemble(raw), raw.to_vec());
}

#[test]
fn reassemble_strips_segment_of_any_declared_length() {
    let mut raw = Vec::new();
    raw.extend_from_slice(b"A");
    raw.extend_from_slice(b"\r\n+IPD,");
    raw.extend_from_slice(b"xyz");
    raw.extend_from_slice(b":");
    raw.extend_from_slice(b"B");
    assert_eq!(reassemble(&raw), b"AB".to_vec());
}

#[test]
fn reassemble_strips_several_segments() {
    let raw = b"ab\r\n+IPD,12:cd\r\n+IPD,3:ef";
    assert_eq!(reassemble(raw), b"abcdef".to_vec());
}

#[test]
fn reassemble_drops_unterminated_segment_to_stream_end() {
    let raw = b"ab\r\n+IPD,12cd";
    assert_eq!(reassemble(raw), b"ab".to_vec());
}

#[test]
fn json_list_round_trip() {
    match decode_body(b"[1,2,3]").unwrap() {
        JsonValue::List(l) => assert_eq!(l, vec![1, 2, 3]),
        _ => panic!("expected a list"),
    }
}

#[test]
fn json_scalar_round_trip() {
    match decode_body(b"42").unwrap() {
        JsonValue::Int(v) => assert_eq!(v, 42),
        _ => panic!("expected a scalar"),
    }
}

#[test]
fn json_negative_scalar() {
    match decode_body(b"-5").unwrap() {
        JsonValue::Int(v) => assert_eq!(v, -5),
        _ => panic!("expected a scalar"),
    }
}

#[test]
fn json_scalar_bounds() {
    assert!(matches!(decode_body(b"2147483647"), Ok(JsonValue::Int(2147483647))));
    assert!(matches!(decode_body(b"-2147483648"), Ok(JsonValue::Int(-2147483648))));
    assert!(matches!(decode_body(b"2147483648"), Err(Esp8266Error::JsonError)));
    assert!(matches!(decode_body(b"-2147483649"), Err(Esp8266Error::JsonError)));
}

#[test]
fn json_truncated_list_is_an_error() {
    assert!(matches!(decode_body(b"[1,2"), Err(Esp8266Error::JsonError)));
}

#[test]
fn json_object_is_an_error() {
    assert!(matches!(decode_body(b"{}"), Err(Esp8266Error::JsonError)));
}

#[test]
fn json_empty_and_malformed_are_errors() {
    assert!(matches!(decode_body(b""), Err(Esp8266Error::JsonError)));
    assert!(matches!(decode_body(b"[]"), Err(Esp8266Error::JsonError)));
    assert!(matches!(decode_body(b"[1,,2]"), Err(Esp8266Error::JsonError)));
    assert!(matches!(decode_body(b"1x"), Err(Esp8266Error::JsonError)));
}

#[test]
fn json_list_at_capacity_and_one_over() {
    let sixteen: Vec<String> = (1..=16).map(|i| i.to_string()).collect();
    let body16 = format!("[{}]", sixteen.join(","));
    match decode_body(body16.as_bytes()).unwrap() {
        JsonValue::List(l) => assert_eq!(l.len(), 16),
        _ => panic!("expected a list"),
    }
    let seventeen: Vec<String> = (1..=17).map(|i| i.to_string()).collect();
    let body17 = format!("[{}]", seventeen.join(","));
    assert!(matches!(
        decode_body(body17.as_bytes()),
        Err(Esp8266Error::JsonError)
    ));
}

#[test]
fn decode_reads_status_and_body() {
    let resp = b"HTTP/1.0 404 nope\r\n\r\nContent-Type: application/json\r\n\r\n7\r\n";
    let out = decode(resp).unwrap();
    assert_eq!(out.code, 404);
    assert_eq!(out.http_resp, resp.to_vec());
    assert!(matches!(out.json, JsonValue::Int(7)));
}

#[test]
fn decode_without_status_line_is_a_parse_error() {
    let resp = b"Content-Type: application/json\r\n\r\n7\r\n";
    assert!(matches!(decode(resp), Err(Esp8266Error::ParseError)));
}

#[test]
fn decode_with_non_digit_code_is_a_parse_error() {
    let resp = b"HTTP/1.0 abc\r\n\r\nContent-Type: application/json\r\n\r\n7\r\n";
    assert!(matches!(decode(resp), Err(Esp8266Error::ParseError)));
}

#[test]
fn decode_without_body_boundary_is_a_parse_error() {
    let resp = b"HTTP/1.0 200 OK\r\nContent-Type: application/json";
    assert!(matches!(decode(resp), Err(Esp8266Error::ParseError)));
}

#[test]
fn decode_with_unsupported_body_is_a_json_error() {
    let resp = b"HTTP/1.0 200 OK\r\n\r\nContent-Type: application/json\r\n\r\n{}\r\n";
    assert!(matches!(decode(resp), Err(Esp8266Error::JsonError)));
}
