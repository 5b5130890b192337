//! HTTP/JSON extraction from a reassembled response.
//!
//! The reassembled bytes are scanned for the fixed status-line prefix, whose
//! next three bytes are the status code; the body starts after the blank
//! line that follows the content-type marker, and is decoded — with its
//! trailing line terminators trimmed — as a numeric JSON payload.  A missing
//! status line or body boundary is a parse error; an unrecognised body is a
//! JSON error.

use vstd::prelude::*;
use crate::Esp8266Error;
use crate::bytes::find_from;
use crate::json::{JsonValue, decode_json, is_digit, json_view};
use crate::markers::{CR, LF};

verus! {

/// "HTTP/1.0 ": the status-line prefix; the three bytes after it are the
/// status code.
pub open spec fn status_prefix() -> Seq<u8> {
    seq![72u8, 84u8, 84u8, 80u8, 47u8, 49u8, 46u8, 48u8, 32u8]
}

/// "HTTP/1.0 " as runtime bytes.
pub fn status_prefix_bytes() -> (v: Vec<u8>)
    ensures
        v@ == status_prefix(),
{
    let mut v: Vec<u8> = Vec::new();
    v.push(72);
    v.push(84);
    v.push(84);
    v.push(80);
    v.push(47);
    v.push(49);
    v.push(46);
    v.push(48);
    v.push(32);
    assert(v@ =~= status_prefix());
    v
}

/// "Content-Type: application/json": the payload marker the body follows.
pub open spec fn content_type_marker() -> Seq<u8> {
    seq![
        67u8, 111u8, 110u8, 116u8, 101u8, 110u8, 116u8, 45u8, 84u8, 121u8, 112u8, 101u8, 58u8,
        32u8, 97u8, 112u8, 112u8, 108u8, 105u8, 99u8, 97u8, 116u8, 105u8, 111u8, 110u8, 47u8,
        106u8, 115u8, 111u8, 110u8,
    ]
}

/// "Content-Type: application/json" as runtime bytes.
pub fn content_type_marker_bytes() -> (v: Vec<u8>)
    ensures
        v@ == content_type_marker(),
{
    let mut v: Vec<u8> = Vec::new();
    v.push(67);
    v.push(111);
    v.push(110);
    v.push(116);
    v.push(101);
    v.push(110);
    v.push(116);
    v.push(45);
    v.push(84);
    v.push(121);
    v.push(112);
    v.push(101);
    v.push(58);
    v.push(32);
    v.push(97);
    v.push(112);
    v.push(112);
    v.push(108);
    v.push(105);
    v.push(99);
    v.push(97);
    v.push(116);
    v.push(105);
    v.push(111);
    v.push(110);
    v.push(47);
    v.push(106);
    v.push(115);
    v.push(111);
    v.push(110);
    assert(v@ =~= content_type_marker());
    v
}

/// CR LF CR LF: the blank line between headers and body.
pub open spec fn blank_line() -> Seq<u8> {
    seq![CR, LF, CR, LF]
}

/// CR LF CR LF as runtime bytes.
pub fn blank_line_bytes() -> (v: Vec<u8>)
    ensures
        v@ == blank_line(),
{
    let mut v: Vec<u8> = Vec::new();
    v.push(CR);
    v.push(LF);
    v.push(CR);
    v.push(LF);
    assert(v@ =~= blank_line());
    v
}

/// The status code of a reassembled response: the three digits after the
/// first status-line prefix, or nothing when the prefix or digits are
/// missing.
pub open spec fn status_of(r: Seq<u8>) -> Option<u16> {
    match find_from(r, status_prefix(), 0) {
        None => None,
        Some(i) => if i + 12 <= r.len() && is_digit(r[i + 9]) && is_digit(r[i + 10]) && is_digit(
            r[i + 11],
        ) {
            Some((((r[i + 9] - 48) * 100 + (r[i + 10] - 48) * 10 + (r[i + 11] - 48))) as u16)
        } else {
            None
        },
    }
}

/// `s` with every trailing CR or LF byte removed.
pub open spec fn trim_line_ends(s: Seq<u8>) -> Seq<u8>
    decreases s.len(),
{
    if s.len() > 0 && (s[s.len() - 1] == CR || s[s.len() - 1] == LF) {
        trim_line_ends(s.take(s.len() - 1))
    } else {
        s
    }
}

/// The body of a reassembled response: everything after the blank line that
/// follows the first content-type marker, with trailing line terminators
/// trimmed; nothing when marker or blank line are missing.
pub open spec fn body_of(r: Seq<u8>) -> Option<Seq<u8>> {
    match find_from(r, content_type_marker(), 0) {
        None => None,
        Some(ci) => match find_from(r, blank_line(), ci) {
            None => None,
            Some(bi) => Some(trim_line_ends(r.skip(bi + 4))),
        },
    }
}

/// The three pieces a successful GET decodes to.
#[derive(Debug)]
pub struct HttpJsonResp {
    /// The HTTP status code.
    pub code: u16,
    /// The reassembled response bytes the code and payload came from.
    pub http_resp: Vec<u8>,
    /// The decoded numeric payload.
    pub json: JsonValue,
}

/// Extract the status code of `r`.
pub fn parse_status(r: &[u8]) -> (res: Option<u16>)
    ensures
        res == status_of(r@),
{
    let pat = status_prefix_bytes();
    let found = crate::bytes::find_sub(r, pat.as_slice(), 0);
    match found {
        None => None,
        Some(i) => {
            if r.len() < 12 || i > r.len() - 12 {
                return None;
            }
            let d0 = r[i + 9];
            let d1 = r[i + 10];
            let d2 = r[i + 11];
            if d0 < 48 || d0 > 57 || d1 < 48 || d1 > 57 || d2 < 48 || d2 > 57 {
                return None;
            }
            let code: u16 = (d0 - 48) as u16 * 100 + (d1 - 48) as u16 * 10 + (d2 - 48) as u16;
            Some(code)
        },
    }
}

/// Copy `s` without its trailing CR and LF bytes.
pub fn trim_line_ends_exec(s: &[u8]) -> (v: Vec<u8>)
    ensures
        v@ == trim_line_ends(s@),
{
    let mut end: usize = s.len();
    assert(s@.take(end as int) =~= s@);
    while end > 0 && (s[end - 1] == CR || s[end - 1] == LF)
        invariant
            0 <= end <= s@.len(),
            trim_line_ends(s@) == trim_line_ends(s@.take(end as int)),
        decreases end,
    {
        assert(s@.take(end as int).take(end - 1) =~= s@.take(end - 1));
        end = end - 1;
    }
    let part = vstd::slice::slice_subrange(s, 0, end);
    let v = vstd::slice::slice_to_vec(part);
    assert(s@.take(end as int) =~= s@.subrange(0, end as int));
    v
}

/// Decode a reassembled response: status code, body boundary, and numeric
/// JSON payload.  The returned value keeps the reassembled bytes alongside
/// the code and the decoded payload.
pub fn decode(resp: &[u8]) -> (r: Result<HttpJsonResp, Esp8266Error>)
    ensures
        r is Ok <==> status_of(resp@) is Some && body_of(resp@) is Some && decode_json(
            body_of(resp@)->Some_0,
        ) is Some,
        r is Ok ==> r->Ok_0.code == status_of(resp@)->Some_0 && r->Ok_0.http_resp@ == resp@
            && json_view(r->Ok_0.json) == decode_json(body_of(resp@)->Some_0)->Some_0,
        r is Err ==> r->Err_0 is ParseError || r->Err_0 is JsonError,
        (r matches Err(Esp8266Error::ParseError)) <==> (status_of(resp@) is None || body_of(resp@)
            is None),
        (r matches Err(Esp8266Error::JsonError)) <==> (status_of(resp@) is Some && body_of(resp@)
            is Some && decode_json(body_of(resp@)->Some_0) is None),
{
    let code = match parse_status(resp) {
        Some(c) => c,
        None => {
            return Err(Esp8266Error::ParseError);
        },
    };
    let ct = content_type_marker_bytes();
    let ci = match crate::bytes::find_sub(resp, ct.as_slice(), 0) {
        Some(i) => i,
        None => {
            return Err(Esp8266Error::ParseError);
        },
    };
    let bl = blank_line_bytes();
    let bi = match crate::bytes::find_sub(resp, bl.as_slice(), ci) {
        Some(i) => i,
        None => {
            return Err(Esp8266Error::ParseError);
        },
    };
    let n: usize = resp.len();
    assert(bi + 4 <= n);
    let raw_body = vstd::slice::slice_subrange(resp, bi + 4, n);
    assert(raw_body@ =~= resp@.skip(bi + 4));
    let body = trim_line_ends_exec(raw_body);
    let json = match crate::json::decode_body(body.as_slice()) {
        Ok(j) => j,
        Err(_) => {
            return Err(Esp8266Error::JsonError);
        },
    };
    let http_resp = vstd::slice::slice_to_vec(resp);
    Ok(HttpJsonResp { code, http_resp, json })
}

} // verus!
