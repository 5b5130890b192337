//! Decoding the numeric JSON payload of a response body.
//!
//! Exactly two shapes are recognised: a single base-10 integer, and a
//! bracket-delimited, comma-separated flat list of base-10 integers holding
//! at most `JSON_LIST_CAPACITY` elements.  Anything else — other JSON
//! shapes, malformed or out-of-range numerals, a truncated list, an empty
//! list — is a decode error, never silently coerced.

use vstd::prelude::*;
use crate::Esp8266Error;
use crate::bytes::find_byte;

verus! {

/// Most elements a decoded integer list can hold.
pub const JSON_LIST_CAPACITY: usize = 16;

/// "-"
pub const MINUS: u8 = 45;

/// ","
pub const COMMA: u8 = 44;

/// "["
pub const LBRACKET: u8 = 91;

/// "]"
pub const RBRACKET: u8 = 93;

pub open spec fn is_digit(b: u8) -> bool {
    48 <= b <= 57
}

pub open spec fn all_digits(s: Seq<u8>) -> bool {
    forall|i: int| 0 <= i < s.len() ==> is_digit(s[i])
}

/// Value of a digit string, most significant digit first.
pub open spec fn digits_val(s: Seq<u8>) -> nat
    decreases s.len(),
{
    if s.len() == 0 {
        0
    } else {
        digits_val(s.take(s.len() - 1)) * 10 + (if s[s.len() - 1] >= 48 {
            (s[s.len() - 1] - 48) as nat
        } else {
            0
        })
    }
}

/// `s` is a well-formed integer literal whose value fits an `i32`:
/// an optional leading minus sign, then at least one digit.
pub open spec fn int_lit_ok(s: Seq<u8>) -> bool {
    if s.len() >= 1 && s[0] == MINUS {
        s.len() >= 2 && all_digits(s.skip(1)) && digits_val(s.skip(1)) <= 0x8000_0000
    } else {
        s.len() >= 1 && all_digits(s) && digits_val(s) <= 0x7fff_ffff
    }
}

/// The value of a well-formed integer literal.
pub open spec fn int_lit_val(s: Seq<u8>) -> int {
    if s.len() >= 1 && s[0] == MINUS {
        -(digits_val(s.skip(1)) as int)
    } else {
        digits_val(s) as int
    }
}

/// Index of the first comma in `s`, if any.
pub open spec fn first_comma(s: Seq<u8>) -> Option<int>
    decreases s.len(),
{
    if s.len() == 0 {
        None
    } else if s[0] == COMMA {
        Some(0)
    } else {
        match first_comma(s.skip(1)) {
            Some(k) => Some(k + 1),
            None => None,
        }
    }
}

pub proof fn lemma_first_comma_char(s: Seq<u8>)
    ensures
        match first_comma(s) {
            Some(k) => 0 <= k < s.len() && s[k] == COMMA && forall|j: int|
                0 <= j < k ==> s[j] != COMMA,
            None => forall|j: int| 0 <= j < s.len() ==> s[j] != COMMA,
        },
    decreases s.len(),
{
    if s.len() == 0 {
    } else if s[0] == COMMA {
    } else {
        lemma_first_comma_char(s.skip(1));
        match first_comma(s.skip(1)) {
            Some(k) => {
                assert(s[k + 1] == s.skip(1)[k]);
                assert forall|j: int| 0 <= j < k + 1 implies s[j] != COMMA by {
                    if j > 0 {
                        assert(s.skip(1)[j - 1] == s[j]);
                    }
                }
            },
            None => {
                assert forall|j: int| 0 <= j < s.len() implies s[j] != COMMA by {
                    if j > 0 {
                        assert(s.skip(1)[j - 1] == s[j]);
                    }
                }
            },
        }
    }
}

/// The comma-separated integer literals of a list body, in order; `None`
/// when any piece — including an empty one — is not a literal in range.
pub open spec fn parse_elems(s: Seq<u8>) -> Option<Seq<int>>
    decreases s.len(),
{
    match first_comma(s) {
        None => if int_lit_ok(s) {
            Some(seq![int_lit_val(s)])
        } else {
            None
        },
        Some(k) => if 0 <= k < s.len() && int_lit_ok(s.take(k)) {
            match parse_elems(s.skip(k + 1)) {
                Some(rest) => Some(seq![int_lit_val(s.take(k))] + rest),
                None => None,
            }
        } else {
            None
        },
    }
}

/// What a body decodes to.
pub enum JsonSpecValue {
    Int(int),
    List(Seq<int>),
}

/// The decoding of a body: a single integer, or a bracketed list of at most
/// `JSON_LIST_CAPACITY` integers; everything else is refused.
pub open spec fn decode_json(s: Seq<u8>) -> Option<JsonSpecValue> {
    if s.len() >= 1 && s[0] == LBRACKET {
        if s.len() >= 2 && s[s.len() - 1] == RBRACKET {
            match parse_elems(s.subrange(1, s.len() - 1)) {
                Some(vs) => if vs.len() <= JSON_LIST_CAPACITY {
                    Some(JsonSpecValue::List(vs))
                } else {
                    None
                },
                None => None,
            }
        } else {
            None
        }
    } else if int_lit_ok(s) {
        Some(JsonSpecValue::Int(int_lit_val(s)))
    } else {
        None
    }
}

/// A decoded numeric payload.
#[derive(Debug)]
pub enum JsonValue {
    Int(i32),
    List(Vec<i32>),
}

/// The mathematical value a `JsonValue` stands for.
pub open spec fn json_view(v: JsonValue) -> JsonSpecValue {
    match v {
        JsonValue::Int(i) => JsonSpecValue::Int(i as int),
        JsonValue::List(l) => JsonSpecValue::List(l@.map_values(|x: i32| x as int)),
    }
}

/// Longer digit prefixes never have smaller values.
proof fn lemma_digits_val_mono(s: Seq<u8>, m: int, j: int)
    requires
        0 <= m <= j <= s.len(),
    ensures
        digits_val(s.take(m)) <= digits_val(s.take(j)),
    decreases j - m,
{
    if m < j {
        lemma_digits_val_mono(s, m, j - 1);
        assert(s.take(j).take(j - 1) =~= s.take(j - 1));
        assert(digits_val(s.take(j)) == digits_val(s.take(j - 1)) * 10 + (if s[j - 1] >= 48 {
            (s[j - 1] - 48) as nat
        } else {
            0
        }));
    }
}

/// Parse a whole slice as one integer literal.
pub fn parse_int_slice(s: &[u8]) -> (r: Option<i32>)
    ensures
        r is Some <==> int_lit_ok(s@),
        r is Some ==> r->0 as int == int_lit_val(s@),
{
    let n: usize = s.len();
    if n == 0 {
        return None;
    }
    let neg: bool = s[0] == MINUS;
    let start: usize = if neg {
        1
    } else {
        0
    };
    if n == start {
        return None;
    }
    let ghost digits = if neg {
        s@.skip(1)
    } else {
        s@
    };
    let limit: u32 = if neg {
        0x8000_0000
    } else {
        0x7fff_ffff
    };
    let mut acc: u32 = 0;
    let mut i: usize = start;
    while i < n
        invariant
            start <= i <= n,
            n == s@.len(),
            start == (if neg {
                1int
            } else {
                0int
            }),
            digits == (if neg {
                s@.skip(1)
            } else {
                s@
            }),
            neg == (s@[0] == MINUS),
            limit == (if neg {
                0x8000_0000u32
            } else {
                0x7fff_ffffu32
            }),
            all_digits(digits.take(i - start)),
            acc == digits_val(digits.take(i - start)),
            acc <= limit,
        decreases n - i,
    {
        let b = s[i];
        if b < 48 || b > 57 {
            assert(digits[i - start] == s@[i as int]);
            assert(!all_digits(digits));
            return None;
        }
        let d: u32 = (b - 48) as u32;
        if acc > limit / 10 || (acc == limit / 10 && d > limit % 10) {
            proof {
                let ghost m = i - start;
                assert(digits.take(m + 1).take(m) =~= digits.take(m));
                assert(digits.take(m + 1)[m] == digits[m]);
                assert(digits[m] == s@[i as int]);
                assert(digits_val(digits.take(m + 1)) == acc * 10 + d);
                assert(acc * 10 + d > limit);
                lemma_digits_val_mono(digits, m + 1, digits.len() as int);
                assert(digits.take(digits.len() as int) =~= digits);
                assert(digits_val(digits) > limit);
            }
            return None;
        }
        proof {
            let ghost m = i - start;
            assert(digits.take(m + 1).take(m) =~= digits.take(m));
            assert(digits.take(m + 1)[m] == digits[m]);
            assert(digits[m] == s@[i as int]);
            assert(digits_val(digits.take(m + 1)) == acc * 10 + d);
        }
        acc = acc * 10 + d;
        i = i + 1;
    }
    proof {
        assert(digits.take(n - start) =~= digits);
    }
    if neg {
        if acc == 0x8000_0000 {
            Some(i32::MIN)
        } else {
            Some(-(acc as i32))
        }
    } else {
        Some(acc as i32)
    }
}

/// Decode a response body as a numeric JSON payload.
pub fn decode_body(s: &[u8]) -> (r: Result<JsonValue, Esp8266Error>)
    ensures
        r is Ok <==> decode_json(s@) is Some,
        r is Ok ==> json_view(r->Ok_0) == decode_json(s@)->Some_0,
        r is Err ==> r->Err_0 is JsonError,
{
    let n: usize = s.len();
    if n >= 1 && s[0] == LBRACKET {
        if n < 2 || s[n - 1] != RBRACKET {
            return Err(Esp8266Error::JsonError);
        }
        let inner = vstd::slice::slice_subrange(s, 1, n - 1);
        let ghost body = s@.subrange(1, n - 1);
        let mut vals: Vec<i32> = Vec::new();
        let mut pos: usize = 0;
        proof {
            assert(body.skip(0) =~= body);
            match parse_elems(body) {
                Some(rest) => {
                    assert(vals@.map_values(|x: i32| x as int) + rest =~= rest);
                },
                None => {},
            }
        }
        loop
            invariant
                pos <= inner@.len(),
                inner@ == body,
                body == s@.subrange(1, n - 1),
                n == s@.len(),
                n >= 2,
                s@[0] == LBRACKET,
                s@[n - 1] == RBRACKET,
                match parse_elems(body.skip(pos as int)) {
                    Some(rest) => parse_elems(body) == Some(
                        vals@.map_values(|x: i32| x as int) + rest,
                    ),
                    None => parse_elems(body) is None,
                },
            decreases body.len() - pos,
        {
            let ghost rem = body.skip(pos as int);
            let comma = find_byte(inner, COMMA, pos);
            proof {
                lemma_first_comma_char(rem);
            }
            match comma {
                Some(c) => {
                    proof {
                        assert(rem[c - pos] == COMMA);
                        assert(forall|j: int| 0 <= j < c - pos ==> rem[j] != COMMA);
                        match first_comma(rem) {
                            Some(k) => {
                                if k < c - pos {
                                    assert(body[pos + k] == COMMA);
                                } else if k > c - pos {
                                    assert(rem[c - pos] != COMMA);
                                }
                            },
                            None => {
                                assert(rem[c - pos] != COMMA);
                            },
                        }
                        assert(first_comma(rem) == Some(c - pos as int));
                    }
                    let chunk = vstd::slice::slice_subrange(inner, pos, c);
                    proof {
                        assert(chunk@ =~= rem.take(c - pos as int));
                    }
                    match parse_int_slice(chunk) {
                        Some(v) => {
                            let ghost vals_pre = vals@;
                            vals.push(v);
                            proof {
                                assert(rem.skip(c - pos + 1) =~= body.skip(c + 1));
                                match parse_elems(body.skip(c + 1)) {
                                    Some(rest) => {
                                        assert(parse_elems(rem) == Some(
                                            seq![int_lit_val(rem.take(c - pos as int))] + rest,
                                        ));
                                        assert(vals@.map_values(|x: i32| x as int) =~= vals_pre
                                            .map_values(|x: i32| x as int).push(v as int));
                                        assert(vals_pre.map_values(|x: i32| x as int) + (seq![
                                            int_lit_val(rem.take(c - pos as int)),
                                        ] + rest) =~= vals@.map_values(|x: i32| x as int) + rest);
                                    },
                                    None => {
                                        assert(parse_elems(rem) is None);
                                    },
                                }
                            }
                            proof {
                                assert(c < body.len());
                                assert(body.len() == n - 2);
                            }
                            pos = c + 1;
                        },
                        None => {
                            proof {
                                assert(parse_elems(rem) is None);
                            }
                            return Err(Esp8266Error::JsonError);
                        },
                    }
                },
                None => {
                    proof {
                        match first_comma(rem) {
                            Some(k) => {
                                assert(body[pos + k] == COMMA);
                            },
                            None => {},
                        }
                        assert(first_comma(rem) is None);
                    }
                    let chunk = vstd::slice::slice_subrange(inner, pos, inner.len());
                    proof {
                        assert(chunk@ =~= rem);
                    }
                    match parse_int_slice(chunk) {
                        Some(v) => {
                            let ghost vals_pre = vals@;
                            vals.push(v);
                            proof {
                                assert(parse_elems(rem) == Some(seq![int_lit_val(rem)]));
                                assert(vals@.map_values(|x: i32| x as int) =~= vals_pre
                                    .map_values(|x: i32| x as int).push(v as int));
                                assert(vals_pre.map_values(|x: i32| x as int) + seq![
                                    int_lit_val(rem),
                                ] =~= vals@.map_values(|x: i32| x as int));
                            }
                            if vals.len() > JSON_LIST_CAPACITY {
                                return Err(Esp8266Error::JsonError);
                            }
                            return Ok(JsonValue::List(vals));
                        },
                        None => {
                            proof {
                                assert(parse_elems(rem) is None);
                            }
                            return Err(Esp8266Error::JsonError);
                        },
                    }
                },
            }
        }
    } else {
        match parse_int_slice(s) {
            Some(v) => Ok(JsonValue::Int(v)),
            None => Err(Esp8266Error::JsonError),
        }
    }
}

} // verus!
