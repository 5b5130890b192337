//! Terminal markers and response-completion detection.
//!
//! A response is complete the moment the accumulated buffer ends with one of
//! the three terminal markers (`OK`, `ERROR`, `FAIL`, each followed by CR LF)
//! *as a full line*: the marker must sit at the very start of the buffer or
//! be preceded by a line feed.  The same anchoring applies to the
//! connection-closed marker (`CLOSED` CR LF) that ends a socket stream.
//! Anchoring is what keeps marker-shaped bytes inside payload content from
//! ending a read early.

use vstd::prelude::*;
use crate::bytes::{contains_at, contains_seq, ends_with, ends_with_exec};

verus! {

pub const CR: u8 = 13;
pub const LF: u8 = 10;

/// "OK\r\n"
pub open spec fn ok_marker() -> Seq<u8> {
    seq![79u8, 75u8, CR, LF]
}

/// "ERROR\r\n"
pub open spec fn error_marker() -> Seq<u8> {
    seq![69u8, 82u8, 82u8, 79u8, 82u8, CR, LF]
}

/// "FAIL\r\n"
pub open spec fn fail_marker() -> Seq<u8> {
    seq![70u8, 65u8, 73u8, 76u8, CR, LF]
}

/// "CLOSED\r\n"
pub open spec fn closed_marker() -> Seq<u8> {
    seq![67u8, 76u8, 79u8, 83u8, 69u8, 68u8, CR, LF]
}

/// "OK": the success token looked for in a trimmed response.
pub open spec fn ok_token() -> Seq<u8> {
    seq![79u8, 75u8]
}

/// "\r\n"
pub open spec fn crlf() -> Seq<u8> {
    seq![CR, LF]
}

/// "OK\r\n" as runtime bytes.
pub fn ok_marker_bytes() -> (v: Vec<u8>)
    ensures
        v@ == ok_marker(),
{
    let mut v: Vec<u8> = Vec::new();
    v.push(79);
    v.push(75);
    v.push(CR);
    v.push(LF);
    assert(v@ =~= ok_marker());
    v
}

/// "ERROR\r\n" as runtime bytes.
pub fn error_marker_bytes() -> (v: Vec<u8>)
    ensures
        v@ == error_marker(),
{
    let mut v: Vec<u8> = Vec::new();
    v.push(69);
    v.push(82);
    v.push(82);
    v.push(79);
    v.push(82);
    v.push(CR);
    v.push(LF);
    assert(v@ =~= error_marker());
    v
}

/// "FAIL\r\n" as runtime bytes.
pub fn fail_marker_bytes() -> (v: Vec<u8>)
    ensures
        v@ == fail_marker(),
{
    let mut v: Vec<u8> = Vec::new();
    v.push(70);
    v.push(65);
    v.push(73);
    v.push(76);
    v.push(CR);
    v.push(LF);
    assert(v@ =~= fail_marker());
    v
}

/// "CLOSED\r\n" as runtime bytes.
pub fn closed_marker_bytes() -> (v: Vec<u8>)
    ensures
        v@ == closed_marker(),
{
    let mut v: Vec<u8> = Vec::new();
    v.push(67);
    v.push(76);
    v.push(79);
    v.push(83);
    v.push(69);
    v.push(68);
    v.push(CR);
    v.push(LF);
    assert(v@ =~= closed_marker());
    v
}

/// "OK" as runtime bytes.
pub fn ok_token_bytes() -> (v: Vec<u8>)
    ensures
        v@ == ok_token(),
{
    let mut v: Vec<u8> = Vec::new();
    v.push(79);
    v.push(75);
    assert(v@ =~= ok_token());
    v
}

/// "\r\n" as runtime bytes.
pub fn crlf_bytes() -> (v: Vec<u8>)
    ensures
        v@ == crlf(),
{
    let mut v: Vec<u8> = Vec::new();
    v.push(CR);
    v.push(LF);
    assert(v@ =~= crlf());
    v
}

/// `m` ends `s` as a full line: it is the whole buffer or preceded by LF.
pub open spec fn line_anchored_at_end(s: Seq<u8>, m: Seq<u8>) -> bool {
    ends_with(s, m) && (s.len() == m.len() || s[s.len() - m.len() - 1] == LF)
}

/// A command response is complete: some terminal marker ends it as a line.
pub open spec fn response_complete(s: Seq<u8>) -> bool {
    line_anchored_at_end(s, ok_marker()) || line_anchored_at_end(s, error_marker())
        || line_anchored_at_end(s, fail_marker())
}

/// A socket stream is complete: the connection-closed marker ends it as a line.
pub open spec fn closed_complete(s: Seq<u8>) -> bool {
    line_anchored_at_end(s, closed_marker())
}

/// Which completion condition a read loop waits for.
#[derive(Clone, Copy)]
pub enum MarkerKind {
    /// One of the three terminal markers of a command response.
    Terminal,
    /// The connection-closed marker of a socket stream.
    Closed,
}

pub open spec fn complete_for(kind: MarkerKind, s: Seq<u8>) -> bool {
    match kind {
        MarkerKind::Terminal => response_complete(s),
        MarkerKind::Closed => closed_complete(s),
    }
}

/// Whether `m` ends `buf` as a full line.
pub fn is_anchored(buf: &[u8], m: &[u8]) -> (r: bool)
    ensures
        r == line_anchored_at_end(buf@, m@),
{
    if !ends_with_exec(buf, m) {
        return false;
    }
    let bn: usize = buf.len();
    let mn: usize = m.len();
    if bn == mn {
        return true;
    }
    buf[bn - mn - 1] == LF
}

/// Whether the buffer read so far is complete for `kind`.
pub fn is_complete(kind: MarkerKind, buf: &[u8]) -> (r: bool)
    ensures
        r == complete_for(kind, buf@),
{
    match kind {
        MarkerKind::Terminal => {
            let ok = ok_marker_bytes();
            if is_anchored(buf, ok.as_slice()) {
                return true;
            }
            let err = error_marker_bytes();
            if is_anchored(buf, err.as_slice()) {
                return true;
            }
            let fail = fail_marker_bytes();
            is_anchored(buf, fail.as_slice())
        },
        MarkerKind::Closed => {
            let closed = closed_marker_bytes();
            is_anchored(buf, closed.as_slice())
        },
    }
}

/// Length of the shortest complete prefix of `q` that is at least `n` long,
/// or `None` when no prefix of `q` from `n` on is complete.
pub open spec fn lcp_from(kind: MarkerKind, q: Seq<u8>, n: int) -> Option<int>
    decreases q.len() - n,
{
    if n < 0 || n > q.len() {
        None
    } else if complete_for(kind, q.take(n)) {
        Some(n)
    } else if n == q.len() {
        None
    } else {
        lcp_from(kind, q, n + 1)
    }
}

/// Length of the shortest complete prefix of `q`, if any prefix is complete.
pub open spec fn lcp(kind: MarkerKind, q: Seq<u8>) -> Option<int> {
    lcp_from(kind, q, 0)
}

/// Full characterization of `lcp_from`.
pub proof fn lemma_lcp_from_char(kind: MarkerKind, q: Seq<u8>, j: int)
    requires
        0 <= j <= q.len(),
    ensures
        match lcp_from(kind, q, j) {
            Some(n) => j <= n <= q.len() && complete_for(kind, q.take(n)) && forall|m: int|
                j <= m < n ==> !complete_for(kind, q.take(m)),
            None => forall|m: int| j <= m <= q.len() ==> !complete_for(kind, q.take(m)),
        },
    decreases q.len() - j,
{
    if complete_for(kind, q.take(j)) {
    } else if j == q.len() {
    } else {
        lemma_lcp_from_char(kind, q, j + 1);
    }
}

/// If `q.take(n)` is the shortest complete prefix, `lcp` finds exactly it.
pub proof fn lemma_lcp_found(kind: MarkerKind, q: Seq<u8>, n: int)
    requires
        0 <= n <= q.len(),
        complete_for(kind, q.take(n)),
        forall|m: int| 0 <= m < n ==> !complete_for(kind, q.take(m)),
    ensures
        lcp(kind, q) == Some(n),
{
    lemma_lcp_from_char(kind, q, 0);
    match lcp_from(kind, q, 0) {
        Some(n2) => {
            if n2 < n {
                assert(!complete_for(kind, q.take(n2)));
            } else if n2 > n {
                assert(!complete_for(kind, q.take(n)));
            }
        },
        None => {
            assert(!complete_for(kind, q.take(n)));
        },
    }
}

/// If no prefix of `q` is complete, `lcp` reports so.
pub proof fn lemma_lcp_none(kind: MarkerKind, q: Seq<u8>)
    requires
        forall|m: int| 0 <= m <= q.len() ==> !complete_for(kind, q.take(m)),
    ensures
        lcp(kind, q) == None::<int>,
{
    lemma_lcp_from_char(kind, q, 0);
    match lcp_from(kind, q, 0) {
        Some(n2) => {
            assert(!complete_for(kind, q.take(n2)));
        },
        None => {},
    }
}

/// If no prefix up to length `c` is complete, any complete prefix is longer.
pub proof fn lemma_lcp_beyond(kind: MarkerKind, q: Seq<u8>, c: int)
    requires
        0 <= c <= q.len(),
        forall|m: int| 0 <= m <= c ==> !complete_for(kind, q.take(m)),
    ensures
        lcp(kind, q) is None || lcp(kind, q)->Some_0 > c,
{
    lemma_lcp_from_char(kind, q, 0);
    match lcp_from(kind, q, 0) {
        Some(n2) => {
            if n2 <= c {
                assert(!complete_for(kind, q.take(n2)));
            }
        },
        None => {},
    }
}

/// Strip one leading and one trailing CR LF pair, as the module frames its
/// responses with a blank line on each side.
pub open spec fn trim_crlf(s: Seq<u8>) -> Seq<u8> {
    let a = if s.len() >= 2 && s[0] == CR && s[1] == LF {
        s.skip(2)
    } else {
        s
    };
    if a.len() >= 2 && a[a.len() - 2] == CR && a[a.len() - 1] == LF {
        a.take(a.len() - 2)
    } else {
        a
    }
}

/// A trimmed response counts as success exactly when it holds the "OK" token.
pub open spec fn is_success_text(t: Seq<u8>) -> bool {
    contains_seq(t, ok_token())
}

/// Strip one leading and one trailing CR LF pair from `buf`.
pub fn trim_crlf_exec(buf: &[u8]) -> (v: Vec<u8>)
    ensures
        v@ == trim_crlf(buf@),
{
    let n: usize = buf.len();
    let start: usize = if n >= 2 && buf[0] == CR && buf[1] == LF {
        2
    } else {
        0
    };
    let end: usize = if n - start >= 2 && buf[n - 2] == CR && buf[n - 1] == LF {
        n - 2
    } else {
        n
    };
    let part = vstd::slice::slice_subrange(buf, start, end);
    let v = vstd::slice::slice_to_vec(part);
    proof {
        let s = buf@;
        let a = if s.len() >= 2 && s[0] == CR && s[1] == LF {
            s.skip(2)
        } else {
            s
        };
        assert(a =~= s.subrange(start as int, s.len() as int));
        if a.len() >= 2 && a[a.len() - 2] == CR && a[a.len() - 1] == LF {
            assert(trim_crlf(s) =~= s.subrange(start as int, end as int));
        } else {
            assert(trim_crlf(s) =~= s.subrange(start as int, end as int));
        }
    }
    v
}

/// A trimmed response that is exactly the success token classifies as
/// success: classification never reports failure on the bare "OK" line.
pub proof fn lemma_exact_ok_is_success()
    ensures
        is_success_text(ok_token()),
{
    assert(ok_token().subrange(0, 2) =~= ok_token());
    assert(contains_at(ok_token(), ok_token(), 0));
}

/// Terminal-marker detection is line-anchored: a buffer whose tail is
/// marker-shaped but not preceded by a line feed is not a complete response,
/// so accumulation goes on past marker bytes that sit inside payload content.
pub proof fn lemma_no_mid_line_completion(s: Seq<u8>)
    requires
        ends_with(s, ok_marker()),
        s.len() > ok_marker().len(),
        s[s.len() - ok_marker().len() - 1] != LF,
    ensures
        !response_complete(s),
{
    assert(!line_anchored_at_end(s, ok_marker()));
    if ends_with(s, error_marker()) {
        assert(s.subrange(s.len() - 4, s.len() as int)[1] == s[s.len() - 3]);
        assert(s.subrange(s.len() - 7, s.len() as int)[4] == s[s.len() - 3]);
        assert(false);
    }
    if ends_with(s, fail_marker()) {
        assert(s.subrange(s.len() - 4, s.len() as int)[1] == s[s.len() - 3]);
        assert(s.subrange(s.len() - 6, s.len() as int)[3] == s[s.len() - 3]);
        assert(false);
    }
}

} // verus!
