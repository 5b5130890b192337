//! AT command construction.
//!
//! Command bodies never include the "AT" introducer; the transport prepends
//! it (and the line ending) when a command is sent.  Structured set commands
//! (`+NAME=<params>`) are rendered by the `at_commands` crate's
//! `CommandBuilder` behind trusted wrappers whose contracts state the exact
//! bytes produced.

use vstd::prelude::*;
use crate::bytes::append_bytes;
use crate::markers::{CR, LF, crlf};

verus! {

/// Fixed buffer, in bytes, for rendering one structured command.
pub const CMD_CAPACITY: usize = 128;

/// "AT": the command-line introducer.
pub open spec fn at_introducer() -> Seq<u8> {
    seq![65u8, 84u8]
}

/// "AT" as runtime bytes.
pub fn at_introducer_bytes() -> (v: Vec<u8>)
    ensures
        v@ == at_introducer(),
{
    let mut v: Vec<u8> = Vec::new();
    v.push(65);
    v.push(84);
    assert(v@ =~= at_introducer());
    v
}

/// "": the bare liveness-probe command (sent as just "AT" plus line ending).
pub open spec fn at_probe() -> Seq<u8> {
    Seq::<u8>::empty()
}

/// "" as runtime bytes.
pub fn at_probe_bytes() -> (v: Vec<u8>)
    ensures
        v@ == at_probe(),
{
    let v: Vec<u8> = Vec::new();
    assert(v@ =~= at_probe());
    v
}

/// "+RST": module reset.
pub open spec fn reset_cmd() -> Seq<u8> {
    seq![43u8, 82u8, 83u8, 84u8]
}

/// "+RST" as runtime bytes.
pub fn reset_cmd_bytes() -> (v: Vec<u8>)
    ensures
        v@ == reset_cmd(),
{
    let mut v: Vec<u8> = Vec::new();
    v.push(43);
    v.push(82);
    v.push(83);
    v.push(84);
    assert(v@ =~= reset_cmd());
    v
}

/// "E0": disable command echo.
pub open spec fn echo_off_cmd() -> Seq<u8> {
    seq![69u8, 48u8]
}

/// "E0" as runtime bytes.
pub fn echo_off_cmd_bytes() -> (v: Vec<u8>)
    ensures
        v@ == echo_off_cmd(),
{
    let mut v: Vec<u8> = Vec::new();
    v.push(69);
    v.push(48);
    assert(v@ =~= echo_off_cmd());
    v
}

/// "+CWMODE=1": select station mode.
pub open spec fn sta_mode_cmd() -> Seq<u8> {
    seq![43u8, 67u8, 87u8, 77u8, 79u8, 68u8, 69u8, 61u8, 49u8]
}

/// "+CWMODE=1" as runtime bytes.
pub fn sta_mode_cmd_bytes() -> (v: Vec<u8>)
    ensures
        v@ == sta_mode_cmd(),
{
    let mut v: Vec<u8> = Vec::new();
    v.push(43);
    v.push(67);
    v.push(87);
    v.push(77);
    v.push(79);
    v.push(68);
    v.push(69);
    v.push(61);
    v.push(49);
    assert(v@ =~= sta_mode_cmd());
    v
}

/// "+CIPMODE=0": select normal (non-transparent) transmission.
pub open spec fn normal_transmission_cmd() -> Seq<u8> {
    seq![43u8, 67u8, 73u8, 80u8, 77u8, 79u8, 68u8, 69u8, 61u8, 48u8]
}

/// "+CIPMODE=0" as runtime bytes.
pub fn normal_transmission_cmd_bytes() -> (v: Vec<u8>)
    ensures
        v@ == normal_transmission_cmd(),
{
    let mut v: Vec<u8> = Vec::new();
    v.push(43);
    v.push(67);
    v.push(73);
    v.push(80);
    v.push(77);
    v.push(79);
    v.push(68);
    v.push(69);
    v.push(61);
    v.push(48);
    assert(v@ =~= normal_transmission_cmd());
    v
}

/// "+CWJAP": the access-point association command name.
pub open spec fn cwjap_name() -> Seq<u8> {
    seq![43u8, 67u8, 87u8, 74u8, 65u8, 80u8]
}

/// "+CWJAP" as runtime bytes.
pub fn cwjap_name_bytes() -> (v: Vec<u8>)
    ensures
        v@ == cwjap_name(),
{
    let mut v: Vec<u8> = Vec::new();
    v.push(43);
    v.push(67);
    v.push(87);
    v.push(74);
    v.push(65);
    v.push(80);
    assert(v@ =~= cwjap_name());
    v
}

/// "+CIPSTART": the connection-open command name.
pub open spec fn cipstart_name() -> Seq<u8> {
    seq![43u8, 67u8, 73u8, 80u8, 83u8, 84u8, 65u8, 82u8, 84u8]
}

/// "+CIPSTART" as runtime bytes.
pub fn cipstart_name_bytes() -> (v: Vec<u8>)
    ensures
        v@ == cipstart_name(),
{
    let mut v: Vec<u8> = Vec::new();
    v.push(43);
    v.push(67);
    v.push(73);
    v.push(80);
    v.push(83);
    v.push(84);
    v.push(65);
    v.push(82);
    v.push(84);
    assert(v@ =~= cipstart_name());
    v
}

/// "TCP": the connection protocol parameter.
pub open spec fn tcp_proto() -> Seq<u8> {
    seq![84u8, 67u8, 80u8]
}

/// "TCP" as runtime bytes.
pub fn tcp_proto_bytes() -> (v: Vec<u8>)
    ensures
        v@ == tcp_proto(),
{
    let mut v: Vec<u8> = Vec::new();
    v.push(84);
    v.push(67);
    v.push(80);
    assert(v@ =~= tcp_proto());
    v
}

/// "+CIPSEND=": the send-notification command prefix.
pub open spec fn cipsend_prefix() -> Seq<u8> {
    seq![43u8, 67u8, 73u8, 80u8, 83u8, 69u8, 78u8, 68u8, 61u8]
}

/// "+CIPSEND=" as runtime bytes.
pub fn cipsend_prefix_bytes() -> (v: Vec<u8>)
    ensures
        v@ == cipsend_prefix(),
{
    let mut v: Vec<u8> = Vec::new();
    v.push(43);
    v.push(67);
    v.push(73);
    v.push(80);
    v.push(83);
    v.push(69);
    v.push(78);
    v.push(68);
    v.push(61);
    assert(v@ =~= cipsend_prefix());
    v
}

/// Decimal representation of `n`, most significant digit first, no sign,
/// no leading zeroes (and "0" for zero).
pub open spec fn dec_rep(n: nat) -> Seq<u8>
    decreases n,
{
    if n < 10 {
        seq![(48 + n) as u8]
    } else {
        dec_rep(n / 10).push((48 + n % 10) as u8)
    }
}

/// 10 to the `k`th power.
pub open spec fn pow10(k: nat) -> nat
    decreases k,
{
    if k == 0 {
        1
    } else {
        10 * pow10((k - 1) as nat)
    }
}

/// `n` below `pow10(k)` has at most `k` decimal digits.
pub proof fn lemma_dec_rep_len(n: nat, k: nat)
    requires
        k >= 1,
        n < pow10(k),
    ensures
        1 <= dec_rep(n).len() <= k,
    decreases k,
{
    if n < 10 {
    } else {
        assert(pow10(k) == 10 * pow10((k - 1) as nat));
        if k == 1 {
            assert(pow10(1nat) == 10) by {
                reveal_with_fuel(pow10, 2);
            }
            assert(false);
        }
        assert(n / 10 < pow10((k - 1) as nat)) by (nonlinear_arith)
            requires
                n < pow10(k),
                pow10(k) == 10 * pow10((k - 1) as nat),
        ;
        lemma_dec_rep_len(n / 10, (k - 1) as nat);
    }
}

/// Any 16-bit value renders to at most five digits.
pub proof fn lemma_dec_rep_len_u16(n: nat)
    requires
        n <= 65535,
    ensures
        1 <= dec_rep(n).len() <= 5,
{
    assert(pow10(5nat) == 100000) by {
        reveal_with_fuel(pow10, 6);
    }
    lemma_dec_rep_len(n, 5);
}

/// Decimal digits of `n`, as sent on the wire.
pub fn dec_bytes_u16(n: u16) -> (v: Vec<u8>)
    ensures
        v@ == dec_rep(n as nat),
    decreases n,
{
    if n < 10 {
        let mut v: Vec<u8> = Vec::new();
        v.push(48 + n as u8);
        assert(v@ =~= dec_rep(n as nat));
        v
    } else {
        let mut v = dec_bytes_u16(n / 10);
        v.push(48 + (n % 10) as u8);
        assert(v@ =~= dec_rep(n as nat));
        v
    }
}

/// A string parameter as rendered by the builder: the value in double quotes.
pub open spec fn quoted(s: Seq<u8>) -> Seq<u8> {
    seq![34u8] + s + seq![34u8]
}

/// `{name}="{a}","{b}"` followed by CR LF.
pub open spec fn set_two_strings_cmd(name: Seq<u8>, a: Seq<u8>, b: Seq<u8>) -> Seq<u8> {
    name + seq![61u8] + quoted(a) + seq![44u8] + quoted(b) + crlf()
}

/// `{name}="{a}","{b}",{n}` followed by CR LF.
pub open spec fn set_two_strings_int_cmd(name: Seq<u8>, a: Seq<u8>, b: Seq<u8>, n: nat) -> Seq<
    u8,
> {
    name + seq![61u8] + quoted(a) + seq![44u8] + quoted(b) + seq![44u8] + dec_rep(n) + crlf()
}

/// Relies on at_commands::builder::CommandBuilder: create_set (no "AT"
/// prefix), named, two with_string_parameter calls, finish.  Into a buffer of
/// `cap` bytes it renders the name, "=", each value in double quotes (no
/// escaping), comma-separated, ending with CR LF; finish returns the written
/// slice exactly when the whole command fit, and an error otherwise (its
/// payload is a size the builder computed, left unstated here: the builder
/// can report one more than the strictly required length).
#[verifier::external_body]
fn build_set_two_strings(name: &[u8], a: &[u8], b: &[u8], cap: usize) -> (r: Result<
    Vec<u8>,
    usize,
>)
    requires
        name@.len() + a@.len() + b@.len() + 16 <= usize::MAX,
    ensures
        r is Ok <==> set_two_strings_cmd(name@, a@, b@).len() <= cap,
        r is Ok ==> r->Ok_0@ == set_two_strings_cmd(name@, a@, b@),
{
    let mut buf = vec![0u8; cap];
    match at_commands::builder::CommandBuilder::create_set(&mut buf, false)
        .named(name)
        .with_string_parameter(a)
        .with_string_parameter(b)
        .finish()
    {
        Ok(s) => Ok(s.to_vec()),
        Err(n) => Err(n),
    }
}

/// Relies on at_commands::builder::CommandBuilder: as build_set_two_strings,
/// with a trailing with_int_parameter whose value is rendered by
/// at_commands::formatter::write_int as plain decimal digits.
#[verifier::external_body]
fn build_set_two_strings_int(name: &[u8], a: &[u8], b: &[u8], n: u16, cap: usize) -> (r: Result<
    Vec<u8>,
    usize,
>)
    requires
        name@.len() + a@.len() + b@.len() + 32 <= usize::MAX,
    ensures
        r is Ok <==> set_two_strings_int_cmd(name@, a@, b@, n as nat).len() <= cap,
        r is Ok ==> r->Ok_0@ == set_two_strings_int_cmd(name@, a@, b@, n as nat),
{
    let mut buf = vec![0u8; cap];
    match at_commands::builder::CommandBuilder::create_set(&mut buf, false)
        .named(name)
        .with_string_parameter(a)
        .with_string_parameter(b)
        .with_int_parameter(n)
        .finish()
    {
        Ok(s) => Ok(s.to_vec()),
        Err(e) => Err(e),
    }
}

/// The association command: `+CWJAP="{ssid}","{password}"` plus CR LF.
pub open spec fn join_cmd(ssid: Seq<u8>, password: Seq<u8>) -> Seq<u8> {
    set_two_strings_cmd(cwjap_name(), ssid, password)
}

/// The connection-open command: `+CIPSTART="TCP","{host}",{port}` plus CR LF.
pub open spec fn cipstart_cmd(host: Seq<u8>, port: u16) -> Seq<u8> {
    set_two_strings_int_cmd(cipstart_name(), tcp_proto(), host, port as nat)
}

/// Render the access-point association command for the given credentials.
/// Fails with the needed length when it does not fit the command buffer.
pub fn set_wifi_ap(ssid: &[u8], password: &[u8]) -> (r: Result<Vec<u8>, usize>)
    requires
        ssid@.len() + password@.len() + 64 <= usize::MAX,
    ensures
        r is Ok <==> join_cmd(ssid@, password@).len() <= CMD_CAPACITY,
        r is Ok ==> r->Ok_0@ == join_cmd(ssid@, password@),
{
    let name = cwjap_name_bytes();
    build_set_two_strings(name.as_slice(), ssid, password, CMD_CAPACITY)
}

/// Render the connection-open command for the given peer.
/// Fails with the needed length when it does not fit the command buffer.
pub fn start_tcp_connection(host: &[u8], port: u16) -> (r: Result<Vec<u8>, usize>)
    requires
        host@.len() + 64 <= usize::MAX,
    ensures
        r is Ok <==> cipstart_cmd(host@, port).len() <= CMD_CAPACITY,
        r is Ok ==> r->Ok_0@ == cipstart_cmd(host@, port),
{
    let name = cipstart_name_bytes();
    let proto = tcp_proto_bytes();
    build_set_two_strings_int(name.as_slice(), proto.as_slice(), host, port, CMD_CAPACITY)
}

/// The send-notification command: `+CIPSEND={length}`.
pub open spec fn cipsend_cmd(length: nat) -> Seq<u8> {
    cipsend_prefix() + dec_rep(length)
}

/// Render the send-notification command carrying the exact byte length of
/// the request about to be transmitted.
pub fn cipsend(length: usize) -> (v: Vec<u8>)
    requires
        length <= 65535,
    ensures
        v@ == cipsend_cmd(length as nat),
{
    let mut v = cipsend_prefix_bytes();
    proof {
        lemma_dec_rep_len_u16(length as nat);
    }
    let d = dec_bytes_u16(length as u16);
    append_bytes(&mut v, d.as_slice());
    v
}

/// The HTTP request line and headers sent through the open connection:
/// `GET {path} HTTP/1.1` CR LF `Host: {host}:{port}` CR LF
/// `Accept: application/json` CR LF CR LF.
pub open spec fn http_get_cmd(host: Seq<u8>, port: u16, path: Seq<u8>) -> Seq<u8> {
    seq![71u8, 69u8, 84u8, 32u8] + path + seq![
        32u8, 72u8, 84u8, 84u8, 80u8, 47u8, 49u8, 46u8, 49u8, CR, LF, 72u8, 111u8, 115u8, 116u8,
        58u8, 32u8,
    ] + host + seq![58u8] + dec_rep(port as nat) + seq![
        CR, LF, 65u8, 99u8, 99u8, 101u8, 112u8, 116u8, 58u8, 32u8, 97u8, 112u8, 112u8, 108u8,
        105u8, 99u8, 97u8, 116u8, 105u8, 111u8, 110u8, 47u8, 106u8, 115u8, 111u8, 110u8, CR, LF,
        CR, LF,
    ]
}

/// Render the HTTP GET request for the given peer and path.
pub fn http_get_payload(host: &[u8], port: u16, path: &[u8]) -> (v: Vec<u8>)
    requires
        host@.len() <= 1024,
        path@.len() <= 1024,
    ensures
        v@ == http_get_cmd(host@, port, path@),
{
    let mut v: Vec<u8> = Vec::new();
    v.push(71);
    v.push(69);
    v.push(84);
    v.push(32);
    append_bytes(&mut v, path);
    let mut mid: Vec<u8> = Vec::new();
    mid.push(32);
    mid.push(72);
    mid.push(84);
    mid.push(84);
    mid.push(80);
    mid.push(47);
    mid.push(49);
    mid.push(46);
    mid.push(49);
    mid.push(CR);
    mid.push(LF);
    mid.push(72);
    mid.push(111);
    mid.push(115);
    mid.push(116);
    mid.push(58);
    mid.push(32);
    append_bytes(&mut v, mid.as_slice());
    append_bytes(&mut v, host);
    v.push(58);
    proof {
        lemma_dec_rep_len_u16(port as nat);
    }
    let d = dec_bytes_u16(port);
    append_bytes(&mut v, d.as_slice());
    let mut tail: Vec<u8> = Vec::new();
    tail.push(CR);
    tail.push(LF);
    tail.push(65);
    tail.push(99);
    tail.push(99);
    tail.push(101);
    tail.push(112);
    tail.push(116);
    tail.push(58);
    tail.push(32);
    tail.push(97);
    tail.push(112);
    tail.push(112);
    tail.push(108);
    tail.push(105);
    tail.push(99);
    tail.push(97);
    tail.push(116);
    tail.push(105);
    tail.push(111);
    tail.push(110);
    tail.push(47);
    tail.push(106);
    tail.push(115);
    tail.push(111);
    tail.push(110);
    tail.push(CR);
    tail.push(LF);
    tail.push(CR);
    tail.push(LF);
    append_bytes(&mut v, tail.as_slice());
    assert(v@ =~= http_get_cmd(host@, port, path@));
    v
}

} // verus!
