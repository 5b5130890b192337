//! Stream reassembly: removing inbound-data framing segments.
//!
//! The module multiplexes live socket data with its own inbound-data
//! notifications at arbitrary byte offsets.  A framing segment is the
//! introducer token (CR LF "+IPD,"), a declared-length field scanned
//! digit-by-digit, and a terminator byte (":"); everything from the
//! introducer through the terminator is framing and is discarded, while the
//! payload bytes around it keep their order and adjacency.  An introducer
//! whose terminator never arrives is framing to the end of the stream.

use vstd::prelude::*;
use crate::bytes::{contains_at, contains_seq, match_at};
use crate::markers::{CR, LF};

verus! {

/// The framing-segment terminator byte, ":".
pub const SEGMENT_END: u8 = 58;

/// CR LF "+IPD,": the inbound-data framing introducer.
pub open spec fn intro() -> Seq<u8> {
    seq![CR, LF, 43u8, 73u8, 80u8, 68u8, 44u8]
}

/// CR LF "+IPD," as runtime bytes.
pub fn intro_bytes() -> (v: Vec<u8>)
    ensures
        v@ == intro(),
{
    let mut v: Vec<u8> = Vec::new();
    v.push(CR);
    v.push(LF);
    v.push(43);
    v.push(73);
    v.push(80);
    v.push(68);
    v.push(44);
    assert(v@ =~= intro());
    v
}

/// The stream with every framing segment removed: payload bytes are copied
/// through until an introducer starts, which switches to `drop_segment`.
pub open spec fn strip_segments(s: Seq<u8>) -> Seq<u8>
    decreases s.len(),
{
    if contains_at(s, intro(), 0) {
        drop_segment(s.skip(intro().len() as int))
    } else if s.len() == 0 {
        s
    } else {
        seq![s[0]] + strip_segments(s.skip(1))
    }
}

/// Inside a framing segment: bytes up to and including the terminator are
/// discarded, then copying resumes; a segment that never ends discards the
/// rest of the stream.
pub open spec fn drop_segment(s: Seq<u8>) -> Seq<u8>
    decreases s.len(),
{
    if s.len() == 0 {
        s
    } else if s[0] == SEGMENT_END {
        strip_segments(s.skip(1))
    } else {
        drop_segment(s.skip(1))
    }
}

/// Remove every framing segment from `raw`, preserving the order and
/// adjacency of the payload bytes around them.
pub fn reassemble(raw: &[u8]) -> (out: Vec<u8>)
    ensures
        out@ == strip_segments(raw@),
{
    let n: usize = raw.len();
    let pat = intro_bytes();
    let mut out: Vec<u8> = Vec::new();
    let mut in_seg: bool = false;
    let mut i: usize = 0;
    assert(raw@.skip(0) =~= raw@);
    assert(Seq::<u8>::empty() + strip_segments(raw@) =~= strip_segments(raw@));
    while i < n
        invariant
            n == raw@.len(),
            0 <= i <= n,
            pat@ == intro(),
            !in_seg ==> strip_segments(raw@) == out@ + strip_segments(raw@.skip(i as int)),
            in_seg ==> strip_segments(raw@) == out@ + drop_segment(raw@.skip(i as int)),
        decreases n - i,
    {
        let ghost rest = raw@.skip(i as int);
        if in_seg {
            assert(rest[0] == raw@[i as int]);
            if raw[i] == SEGMENT_END {
                in_seg = false;
                assert(drop_segment(rest) == strip_segments(rest.skip(1)));
            } else {
                assert(drop_segment(rest) == drop_segment(rest.skip(1)));
            }
            assert(rest.skip(1) =~= raw@.skip(i + 1));
            i = i + 1;
        } else {
            if n - i >= 7 && match_at(raw, pat.as_slice(), i) {
                assert(rest.subrange(0, 7) =~= raw@.subrange(i as int, i + 7));
                assert(contains_at(rest, intro(), 0));
                assert(strip_segments(rest) == drop_segment(rest.skip(7)));
                assert(rest.skip(7) =~= raw@.skip(i + 7));
                in_seg = true;
                i = i + 7;
            } else {
                assert(!contains_at(rest, intro(), 0)) by {
                    if contains_at(rest, intro(), 0) {
                        assert(rest.subrange(0, 7) =~= raw@.subrange(i as int, i + 7));
                        assert(contains_at(raw@, intro(), i as int));
                    }
                }
                assert(strip_segments(rest) == seq![rest[0]] + strip_segments(rest.skip(1)));
                let ghost out_pre = out@;
                let b = raw[i];
                out.push(b);
                assert(rest.skip(1) =~= raw@.skip(i + 1));
                assert(out_pre + (seq![rest[0]] + strip_segments(rest.skip(1))) =~= out@
                    + strip_segments(raw@.skip(i + 1)));
                i = i + 1;
            }
        }
    }
    assert(raw@.skip(n as int) =~= Seq::<u8>::empty());
    assert(strip_segments(Seq::<u8>::empty()) =~= Seq::<u8>::empty());
    assert(drop_segment(Seq::<u8>::empty()) =~= Seq::<u8>::empty());
    out
}

/// Reassembly is the identity on streams with no framing segment: when the
/// introducer token occurs nowhere, every byte is payload and is kept as is.
pub proof fn lemma_reassemble_no_framing(s: Seq<u8>)
    requires
        !contains_seq(s, intro()),
    ensures
        strip_segments(s) == s,
    decreases s.len(),
{
    assert(!contains_at(s, intro(), 0));
    if s.len() == 0 {
    } else {
        assert(!contains_seq(s.skip(1), intro())) by {
            if contains_seq(s.skip(1), intro()) {
                let j = choose|j: int| contains_at(s.skip(1), intro(), j);
                assert(s.skip(1).subrange(j, j + intro().len()) =~= s.subrange(
                    j + 1,
                    j + 1 + intro().len(),
                ));
                assert(contains_at(s, intro(), j + 1));
            }
        }
        lemma_reassemble_no_framing(s.skip(1));
        assert(strip_segments(s) =~= s);
    }
}

/// Dropping a segment body with no terminator byte inside it consumes the
/// body and its terminator, then resumes ordinary copying.
proof fn lemma_drop_through(mid: Seq<u8>, b: Seq<u8>)
    requires
        forall|k: int| 0 <= k < mid.len() ==> mid[k] != SEGMENT_END,
    ensures
        drop_segment(mid + seq![SEGMENT_END] + b) == strip_segments(b),
    decreases mid.len(),
{
    let s = mid + seq![SEGMENT_END] + b;
    if mid.len() == 0 {
        assert(s[0] == SEGMENT_END);
        assert(s.skip(1) =~= b);
    } else {
        assert(s[0] == mid[0]);
        assert(s.skip(1) =~= mid.skip(1) + seq![SEGMENT_END] + b);
        lemma_drop_through(mid.skip(1), b);
    }
}

/// Reassembly strips a whole framing segment — introducer, declared-length
/// field of any width, terminator — and preserves the byte order of the
/// payload around it: the bytes before the introducer come through
/// unchanged, directly followed by the reassembly of what follows the
/// terminator.
pub proof fn lemma_strip_one_segment(a: Seq<u8>, mid: Seq<u8>, b: Seq<u8>)
    requires
        forall|j: int| 0 <= j < a.len() ==> !contains_at(
            a + intro() + mid + seq![SEGMENT_END] + b,
            intro(),
            j,
        ),
        forall|k: int| 0 <= k < mid.len() ==> mid[k] != SEGMENT_END,
    ensures
        strip_segments(a + intro() + mid + seq![SEGMENT_END] + b) == a + strip_segments(b),
    decreases a.len(),
{
    let whole = a + intro() + mid + seq![SEGMENT_END] + b;
    if a.len() == 0 {
        assert(whole.subrange(0, intro().len() as int) =~= intro());
        assert(contains_at(whole, intro(), 0));
        assert(whole.skip(intro().len() as int) =~= mid + seq![SEGMENT_END] + b);
        lemma_drop_through(mid, b);
        assert(a + strip_segments(b) =~= strip_segments(b));
    } else {
        assert(!contains_at(whole, intro(), 0));
        assert(whole[0] == a[0]);
        let tail = a.skip(1) + intro() + mid + seq![SEGMENT_END] + b;
        assert(whole.skip(1) =~= tail);
        assert forall|j: int| 0 <= j < a.skip(1).len() implies !contains_at(tail, intro(), j) by {
            if contains_at(tail, intro(), j) {
                assert(tail.subrange(j, j + intro().len()) =~= whole.subrange(
                    j + 1,
                    j + 1 + intro().len(),
                ));
                assert(contains_at(whole, intro(), j + 1));
            }
        }
        lemma_strip_one_segment(a.skip(1), mid, b);
        assert(strip_segments(whole) == seq![whole[0]] + strip_segments(whole.skip(1)));
        assert(seq![a[0]] + (a.skip(1) + strip_segments(b)) =~= a + strip_segments(b));
    }
}

/// Payload pieces interleaved with framing segments: each piece but the
/// last is followed by one segment whose declared-length field is the
/// matching element of `mids`.
pub open spec fn framed_stream(ps: Seq<Seq<u8>>, mids: Seq<Seq<u8>>) -> Seq<u8>
    decreases mids.len(),
{
    if ps.len() == 0 {
        Seq::<u8>::empty()
    } else if mids.len() == 0 {
        ps[0]
    } else {
        ps[0] + intro() + mids[0] + seq![SEGMENT_END] + framed_stream(ps.skip(1), mids.skip(1))
    }
}

/// The payload pieces joined, in order.
pub open spec fn concat_pieces(ps: Seq<Seq<u8>>) -> Seq<u8>
    decreases ps.len(),
{
    if ps.len() == 0 {
        Seq::<u8>::empty()
    } else {
        ps[0] + concat_pieces(ps.skip(1))
    }
}

/// Reassembly strips every framing segment of a stream, whatever each
/// segment's declared-length field holds, and preserves the order and
/// adjacency of all payload pieces around them: a stream of pieces
/// interleaved with any number of segments reassembles to the pieces
/// joined.  No piece before a segment may hold (or run into) an introducer
/// of its own, no length field its terminator, and the final piece no
/// introducer.
pub proof fn lemma_strip_all_segments(ps: Seq<Seq<u8>>, mids: Seq<Seq<u8>>)
    requires
        ps.len() == mids.len() + 1,
        forall|i: int, j: int|
            0 <= i < mids.len() && 0 <= j < ps[i].len() ==> !contains_at(
                framed_stream(ps.skip(i), mids.skip(i)),
                intro(),
                j,
            ),
        forall|i: int, k: int|
            0 <= i < mids.len() && 0 <= k < mids[i].len() ==> mids[i][k] != SEGMENT_END,
        !contains_seq(ps[mids.len() as int], intro()),
    ensures
        strip_segments(framed_stream(ps, mids)) == concat_pieces(ps),
    decreases mids.len(),
{
    if mids.len() == 0 {
        lemma_reassemble_no_framing(ps[0]);
        assert(ps.skip(1).len() == 0);
        assert(concat_pieces(ps.skip(1)) =~= Seq::<u8>::empty());
        assert(concat_pieces(ps) =~= ps[0]);
    } else {
        let rest = framed_stream(ps.skip(1), mids.skip(1));
        assert(ps.skip(0) =~= ps);
        assert(mids.skip(0) =~= mids);
        assert(framed_stream(ps, mids) == ps[0] + intro() + mids[0] + seq![SEGMENT_END] + rest);
        lemma_strip_one_segment(ps[0], mids[0], rest);
        assert forall|i: int, j: int|
            0 <= i < mids.skip(1).len() && 0 <= j < ps.skip(1)[i].len() implies !contains_at(
            framed_stream(ps.skip(1).skip(i), mids.skip(1).skip(i)),
            intro(),
            j,
        ) by {
            assert(ps.skip(1).skip(i) =~= ps.skip(i + 1));
            assert(mids.skip(1).skip(i) =~= mids.skip(i + 1));
            assert(ps.skip(1)[i] == ps[i + 1]);
            assert(!contains_at(framed_stream(ps.skip(i + 1), mids.skip(i + 1)), intro(), j));
        }
        assert(ps.skip(1)[mids.skip(1).len() as int] == ps[mids.len() as int]);
        lemma_strip_all_segments(ps.skip(1), mids.skip(1));
        assert(strip_segments(framed_stream(ps, mids)) == ps[0] + concat_pieces(ps.skip(1)));
    }
}

} // verus!
