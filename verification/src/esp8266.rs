//! The protocol engine: command transport and session sequencing.
//!
//! An `Esp8266` owns the byte channel to the radio module: a bounded receive
//! queue fed one byte at a time by the surroundings (an interrupt handler on
//! hardware, a script in tests), a bounded transmit sink, and a best-effort
//! diagnostic sink.  One command round trip sends a line and accumulates
//! response bytes until a line-anchored terminal marker; no second command
//! may be issued before that.  All waiting is bounded: an exhausted receive
//! queue is a timeout, a full buffer an overrun, each a distinct error.
//! Real-time pacing (settle delays between steps, retry policy) is left to
//! the caller.

use vstd::prelude::*;
use crate::Esp8266Error;
use crate::bytes::{contains_sub, ends_with};
use crate::channel::{ByteSink, RxQueue};
use crate::commands::{
    CMD_CAPACITY, at_introducer, at_introducer_bytes, at_probe, cipsend, cipsend_cmd,
    cipstart_cmd, echo_off_cmd, echo_off_cmd_bytes, http_get_cmd, http_get_payload, join_cmd,
    lemma_dec_rep_len_u16, normal_transmission_cmd, normal_transmission_cmd_bytes, reset_cmd,
    reset_cmd_bytes, set_wifi_ap, sta_mode_cmd, sta_mode_cmd_bytes, start_tcp_connection,
};
use crate::http::{HttpJsonResp, body_of, decode, status_of};
use crate::json::{decode_json, json_view};
use crate::markers::{
    MarkerKind, closed_marker, complete_for, crlf, crlf_bytes, is_anchored, is_complete,
    is_success_text, lcp, lemma_lcp_beyond, lemma_lcp_found, lemma_lcp_none,
    line_anchored_at_end, ok_marker, ok_marker_bytes, ok_token, ok_token_bytes, trim_crlf,
    trim_crlf_exec,
};
use crate::reassemble::{reassemble, strip_segments};

verus! {

/// Capacity of the buffer holding one framed command response.
pub const RESP_CAPACITY: usize = 512;

/// Capacity of the buffer holding the acknowledgement of a raw request.
pub const ACK_CAPACITY: usize = 128;

/// Capacity of the buffer holding one raw socket stream.
pub const STREAM_CAPACITY: usize = 8192;

/// The protocol engine around one radio module.
pub struct Esp8266 {
    rx: RxQueue,
    tx: ByteSink,
    log: ByteSink,
}

/// The bytes put on the wire for one command: optional "AT" introducer,
/// the command body, then CR LF.
pub open spec fn sent_line(cmd: Seq<u8>, prefix: bool) -> Seq<u8> {
    (if prefix {
        at_introducer()
    } else {
        Seq::<u8>::empty()
    }) + cmd + crlf()
}

/// A complete prefix of `q` exists and fits a buffer of `cap` bytes.
pub open spec fn found_within(kind: MarkerKind, q: Seq<u8>, cap: int) -> bool {
    lcp(kind, q) is Some && lcp(kind, q)->Some_0 <= cap
}

/// Length of the shortest complete prefix of `q`.
pub open spec fn found_len(kind: MarkerKind, q: Seq<u8>) -> int {
    lcp(kind, q)->Some_0
}

/// Reading `q` into a buffer of `cap` bytes overruns it.
pub open spec fn read_overruns(kind: MarkerKind, q: Seq<u8>, cap: int) -> bool {
    q.len() >= cap && (lcp(kind, q) is None || lcp(kind, q)->Some_0 > cap)
}

/// Reading `q` runs out of bytes before any complete prefix.
pub open spec fn read_times_out(kind: MarkerKind, q: Seq<u8>, cap: int) -> bool {
    q.len() < cap && lcp(kind, q) is None
}

/// One framed exchange against incoming script `q` completes in capacity.
pub open spec fn exch_found(q: Seq<u8>) -> bool {
    found_within(MarkerKind::Terminal, q, RESP_CAPACITY as int)
}

/// Bytes such an exchange consumes from `q`.
pub open spec fn exch_len(q: Seq<u8>) -> int {
    found_len(MarkerKind::Terminal, q)
}

/// The raw response such an exchange accumulates.
pub open spec fn exch_raw(q: Seq<u8>) -> Seq<u8> {
    q.take(exch_len(q))
}

/// The trimmed response text such an exchange yields.
pub open spec fn exch_resp(q: Seq<u8>) -> Seq<u8> {
    trim_crlf(exch_raw(q))
}

/// Such an exchange completes and classifies as success.
pub open spec fn exch_ok(q: Seq<u8>) -> bool {
    exch_found(q) && is_success_text(exch_resp(q))
}

/// What the exchange leaves of `q` for later reads.
pub open spec fn exch_rest(q: Seq<u8>) -> Seq<u8> {
    q.skip(exch_len(q))
}

/// What three successive exchanges leave of `q`.
pub open spec fn exch_rest3(q: Seq<u8>) -> Seq<u8> {
    exch_rest(exch_rest(exch_rest(q)))
}

/// The acknowledgement read after the raw request completes in capacity.
pub open spec fn ack_found(q: Seq<u8>) -> bool {
    found_within(MarkerKind::Terminal, q, ACK_CAPACITY as int)
}

/// The raw acknowledgement buffer.
pub open spec fn ack_raw(q: Seq<u8>) -> Seq<u8> {
    q.take(found_len(MarkerKind::Terminal, q))
}

/// The acknowledgement is the success marker, anchored to its line.
pub open spec fn ack_ok(q: Seq<u8>) -> bool {
    ack_found(q) && line_anchored_at_end(ack_raw(q), ok_marker())
}

/// What the acknowledgement read leaves of `q`.
pub open spec fn ack_rest(q: Seq<u8>) -> Seq<u8> {
    q.skip(found_len(MarkerKind::Terminal, q))
}

/// The socket stream completes with the connection-closed marker in
/// capacity.
pub open spec fn stream_found(q: Seq<u8>) -> bool {
    found_within(MarkerKind::Closed, q, STREAM_CAPACITY as int)
}

/// The raw socket stream, connection-closed marker included.
pub open spec fn stream_raw(q: Seq<u8>) -> Seq<u8> {
    q.take(found_len(MarkerKind::Closed, q))
}

/// The raw socket stream without its trailing connection-closed marker.
pub open spec fn stream_payload(q: Seq<u8>) -> Seq<u8> {
    stream_raw(q).take(stream_raw(q).len() - closed_marker().len())
}

/// What collecting the stream leaves of `q`.
pub open spec fn stream_rest(q: Seq<u8>) -> Seq<u8> {
    q.skip(found_len(MarkerKind::Closed, q))
}

/// The reassembled response a GET recovers from the stream in `q`.
pub open spec fn get_reassembled(q: Seq<u8>) -> Seq<u8> {
    strip_segments(stream_payload(q))
}

/// The reassembled response decodes: status line, body boundary, payload.
pub open spec fn decode_ok(rs: Seq<u8>) -> bool {
    status_of(rs) is Some && body_of(rs) is Some && decode_json(body_of(rs)->Some_0) is Some
}

/// Classification of a completed exchange: it is success exactly when the
/// trimmed response text holds the "OK" token — never success when the text
/// lacks the token — and a response that is exactly the success marker line
/// always classifies as success.
pub proof fn lemma_classification(q: Seq<u8>)
    requires
        exch_found(q),
    ensures
        exch_ok(q) <==> is_success_text(exch_resp(q)),
        exch_resp(q) == ok_token() ==> exch_ok(q),
{
    crate::markers::lemma_exact_ok_is_success();
}

/// The connection-open frame of a GET.
pub open spec fn cipstart_line(host: Seq<u8>, port: u16) -> Seq<u8> {
    sent_line(cipstart_cmd(host, port), true)
}

/// The transmission-mode frame of a GET.
pub open spec fn cipmode_line() -> Seq<u8> {
    sent_line(normal_transmission_cmd(), true)
}

/// The send-notification frame of a GET, carrying the request's length.
pub open spec fn cipsend_line(host: Seq<u8>, port: u16, path: Seq<u8>) -> Seq<u8> {
    sent_line(cipsend_cmd(http_get_cmd(host, port, path).len()), true)
}

/// The raw request frame of a GET, without the "AT" introducer.
pub open spec fn request_line(host: Seq<u8>, port: u16, path: Seq<u8>) -> Seq<u8> {
    sent_line(http_get_cmd(host, port, path), false)
}

/// Everything a successful GET puts on the wire: the connection-open,
/// transmission-mode and send-notification command lines, then the raw
/// request without the "AT" introducer.
pub open spec fn get_wire(host: Seq<u8>, port: u16, path: Seq<u8>) -> Seq<u8> {
    cipstart_line(host, port) + cipmode_line() + cipsend_line(host, port, path) + request_line(
        host,
        port,
        path,
    )
}

impl Esp8266 {
    /// Incoming bytes not yet consumed, front first.
    pub closed spec fn rx_view(&self) -> Seq<u8> {
        self.rx.view()
    }

    pub closed spec fn rx_cap(&self) -> int {
        self.rx.cap()
    }

    /// Everything sent to the module so far.
    pub closed spec fn tx_view(&self) -> Seq<u8> {
        self.tx.view()
    }

    pub closed spec fn tx_cap(&self) -> int {
        self.tx.cap()
    }

    /// Everything accepted by the diagnostic channel so far.
    pub closed spec fn log_view(&self) -> Seq<u8> {
        self.log.view()
    }

    pub closed spec fn log_cap(&self) -> int {
        self.log.cap()
    }

    pub open spec fn wf(&self) -> bool {
        self.rx_view().len() <= self.rx_cap() && self.tx_view().len() <= self.tx_cap()
            && self.log_view().len() <= self.log_cap()
    }

    /// The channel capacities a value was built with.
    pub open spec fn same_shape(pre: Esp8266, post: Esp8266) -> bool {
        post.rx_cap() == pre.rx_cap() && post.tx_cap() == pre.tx_cap() && post.log_cap()
            == pre.log_cap()
    }

    /// Bring the module into a known state: send the echo-disable command
    /// (expecting no framed response: the module may not be framing yet) and
    /// then drain the receive queue of power-on noise.
    pub fn new(rx: RxQueue, tx: ByteSink, log: ByteSink) -> (esp: Esp8266)
        requires
            rx.wf(),
            tx.wf(),
            log.wf(),
            tx.view().len() + 6 <= tx.cap(),
        ensures
            esp.wf(),
            esp.rx_cap() == rx.cap(),
            esp.tx_cap() == tx.cap(),
            esp.log_cap() == log.cap(),
            esp.rx_view() == Seq::<u8>::empty(),
            esp.tx_view() == tx.view() + sent_line(echo_off_cmd(), true),
    {
        let mut esp = Esp8266 { rx, tx, log };
        let at = at_introducer_bytes();
        let e0 = echo_off_cmd_bytes();
        let nl = crlf_bytes();
        let a1 = esp.tx.write_all(at.as_slice());
        let a2 = esp.tx.write_all(e0.as_slice());
        let a3 = esp.tx.write_all(nl.as_slice());
        assert(a1 && a2 && a3);
        assert(esp.tx.view() =~= tx.view() + sent_line(echo_off_cmd(), true));
        while esp.rx.len() > 0
            invariant
                esp.rx.wf(),
                esp.rx.cap() == rx.cap(),
                esp.tx.wf(),
                esp.tx.cap() == tx.cap(),
                esp.tx.view() == tx.view() + sent_line(echo_off_cmd(), true),
                esp.log.wf(),
                esp.log.cap() == log.cap(),
            decreases esp.rx.view().len(),
        {
            esp.rx.pop();
        }
        esp
    }

    /// Producer side of the receive queue: hand one incoming byte to the
    /// engine.  A full queue drops the byte and reports so.
    pub fn feed_byte(&mut self, b: u8) -> (accepted: bool)
        requires
            old(self).wf(),
        ensures
            final(self).wf(),
            Esp8266::same_shape(*old(self), *final(self)),
            final(self).tx_view() == old(self).tx_view(),
            final(self).log_view() == old(self).log_view(),
            accepted == (old(self).rx_view().len() < old(self).rx_cap()),
            accepted ==> final(self).rx_view() == old(self).rx_view().push(b),
            !accepted ==> final(self).rx_view() == old(self).rx_view(),
    {
        self.rx.push(b)
    }

    /// Feed a run of incoming bytes; stops at the first byte the queue
    /// refuses and reports how many were accepted.
    pub fn feed(&mut self, bytes: &[u8]) -> (n: usize)
        requires
            old(self).wf(),
        ensures
            final(self).wf(),
            Esp8266::same_shape(*old(self), *final(self)),
            final(self).tx_view() == old(self).tx_view(),
            final(self).log_view() == old(self).log_view(),
            n <= bytes@.len(),
            final(self).rx_view() == old(self).rx_view() + bytes@.take(n as int),
            n < bytes@.len() ==> final(self).rx_view().len() == final(self).rx_cap(),
            old(self).rx_view().len() + bytes@.len() <= old(self).rx_cap() ==> n == bytes@.len(),
    {
        let end: usize = bytes.len();
        let mut i: usize = 0;
        while i < end
            invariant
                self.wf(),
                Esp8266::same_shape(*old(self), *self),
                self.tx_view() == old(self).tx_view(),
                self.log_view() == old(self).log_view(),
                0 <= i <= end,
                end == bytes@.len(),
                self.rx_view() == old(self).rx_view() + bytes@.take(i as int),
            decreases end - i,
        {
            let accepted = self.rx.push(bytes[i]);
            if !accepted {
                assert(self.rx_view() =~= old(self).rx_view() + bytes@.take(i as int));
                return i;
            }
            assert(self.rx_view() =~= old(self).rx_view() + bytes@.take(i + 1));
            i = i + 1;
        }
        assert(bytes@.take(end as int) =~= bytes@);
        end
    }

    /// Everything sent to the module so far.
    pub fn sent(&self) -> (s: &[u8])
        ensures
            s@ == self.tx_view(),
    {
        self.tx.contents()
    }

    /// Everything the diagnostic channel accepted so far.
    pub fn logged(&self) -> (s: &[u8])
        ensures
            s@ == self.log_view(),
    {
        self.log.contents()
    }

    /// How many incoming bytes wait unconsumed.
    pub fn pending(&self) -> (n: usize)
        ensures
            n == self.rx_view().len(),
    {
        self.rx.len()
    }

    /// Put one command line on the wire, atomically: nothing is sent when
    /// the transmit channel cannot take the whole line.  The line is
    /// mirrored to the diagnostic channel best-effort.
    fn send_cmd(&mut self, cmd: &[u8], prefix: bool) -> (r: Result<(), Esp8266Error>)
        requires
            old(self).wf(),
            cmd@.len() + 4 <= usize::MAX,
        ensures
            final(self).wf(),
            Esp8266::same_shape(*old(self), *final(self)),
            final(self).rx_view() == old(self).rx_view(),
            r is Ok <==> old(self).tx_view().len() + sent_line(cmd@, prefix).len() <= old(
                self,
            ).tx_cap(),
            r is Ok ==> final(self).tx_view() == old(self).tx_view() + sent_line(cmd@, prefix),
            r is Ok && old(self).log_view().len() + sent_line(cmd@, prefix).len() <= old(
                self,
            ).log_cap() ==> final(self).log_view() == old(self).log_view() + sent_line(
                cmd@,
                prefix,
            ),
            r is Err ==> r->Err_0 is Transport && final(self).tx_view() == old(self).tx_view()
                && final(self).log_view() == old(self).log_view(),
    {
        let need: usize = if prefix {
            cmd.len() + 4
        } else {
            cmd.len() + 2
        };
        if self.tx.remaining() < need {
            return Err(Esp8266Error::Transport);
        }
        let at = at_introducer_bytes();
        let nl = crlf_bytes();
        if prefix {
            let a = self.tx.write_all(at.as_slice());
            assert(a);
            self.log.write_lossy(at.as_slice());
        }
        let b = self.tx.write_all(cmd);
        assert(b);
        let c = self.tx.write_all(nl.as_slice());
        assert(c);
        self.log.write_lossy(cmd);
        self.log.write_lossy(nl.as_slice());
        assert(self.tx_view() =~= old(self).tx_view() + sent_line(cmd@, prefix));
        proof {
            if old(self).log_view().len() + sent_line(cmd@, prefix).len() <= old(
                self,
            ).log_cap() {
                assert(self.log_view() =~= old(self).log_view() + sent_line(cmd@, prefix));
            }
        }
        Ok(())
    }

    /// Accumulate incoming bytes, one at a time, into a buffer of `cap`
    /// bytes, until the buffer is a complete read for `kind`: the shortest
    /// complete prefix of the queued bytes is consumed and returned.  An
    /// exhausted queue is a timeout, a full buffer an overrun.
    fn read_until(&mut self, kind: MarkerKind, cap: usize) -> (r: Result<Vec<u8>, Esp8266Error>)
        requires
            old(self).wf(),
        ensures
            final(self).wf(),
            Esp8266::same_shape(*old(self), *final(self)),
            final(self).tx_view() == old(self).tx_view(),
            final(self).log_view() == old(self).log_view(),
            r is Ok <==> found_within(kind, old(self).rx_view(), cap as int),
            r is Ok ==> lcp(kind, old(self).rx_view()) == Some(r->Ok_0@.len() as int)
                && r->Ok_0@ == old(self).rx_view().take(r->Ok_0@.len() as int) && r->Ok_0@.len()
                <= cap && complete_for(kind, r->Ok_0@) && final(self).rx_view() == old(
                self,
            ).rx_view().skip(r->Ok_0@.len() as int),
            r is Err ==> r->Err_0 is Overrun || r->Err_0 is Timeout,
            r is Err && r->Err_0 is Overrun ==> read_overruns(kind, old(self).rx_view(), cap as int)
                && final(self).rx_view() == old(self).rx_view().skip(cap as int),
            r is Err && r->Err_0 is Timeout ==> read_times_out(kind, old(self).rx_view(), cap as int)
                && final(self).rx_view() == Seq::<u8>::empty(),
    {
        let ghost q0 = self.rx_view();
        let mut buf: Vec<u8> = Vec::new();
        loop
            invariant
                self.wf(),
                Esp8266::same_shape(*old(self), *self),
                self.tx_view() == old(self).tx_view(),
                self.log_view() == old(self).log_view(),
                q0 == old(self).rx_view(),
                buf@.len() <= cap,
                buf@.len() <= q0.len(),
                buf@ == q0.take(buf@.len() as int),
                self.rx_view() == q0.skip(buf@.len() as int),
                forall|m: int| 0 <= m <= buf@.len() ==> !complete_for(kind, q0.take(m)),
            decreases q0.len() - buf@.len(),
        {
            if buf.len() == cap {
                proof {
                    lemma_lcp_beyond(kind, q0, cap as int);
                }
                return Err(Esp8266Error::Overrun);
            }
            let next = self.rx.pop();
            match next {
                None => {
                    assert(buf@.len() == q0.len());
                    proof {
                        lemma_lcp_none(kind, q0);
                    }
                    return Err(Esp8266Error::Timeout);
                },
                Some(b) => {
                    let ghost n0 = buf@.len() as int;
                    buf.push(b);
                    assert(buf@ =~= q0.take(n0 + 1)) by {
                        assert(q0.take(n0 + 1) =~= q0.take(n0).push(q0[n0]));
                    }
                    assert(self.rx_view() =~= q0.skip(n0 + 1));
                    let done = is_complete(kind, buf.as_slice());
                    if done {
                        proof {
                            lemma_lcp_found(kind, q0, n0 + 1);
                        }
                        return Ok(buf);
                    }
                },
            }
        }
    }

    /// One full command round trip: send the line, accumulate the response
    /// to its terminal marker, strip the framing blank lines, and classify.
    /// The trimmed response text classifies as success exactly when it
    /// holds the "OK" token; otherwise it comes back as the protocol error's
    /// diagnostic payload.  The completed exchange is mirrored to the
    /// diagnostic channel best-effort.
    pub fn communicate(&mut self, cmd: &[u8], prefix: bool) -> (r: Result<Vec<u8>, Esp8266Error>)
        requires
            old(self).wf(),
            cmd@.len() + 4 <= usize::MAX,
        ensures
            final(self).wf(),
            Esp8266::same_shape(*old(self), *final(self)),
            r is Ok <==> old(self).tx_view().len() + sent_line(cmd@, prefix).len() <= old(
                self,
            ).tx_cap() && exch_ok(old(self).rx_view()),
            old(self).tx_view().len() + sent_line(cmd@, prefix).len() > old(self).tx_cap() ==> (
            r matches Err(Esp8266Error::Transport) && final(self).tx_view() == old(self).tx_view()
                && final(self).rx_view() == old(self).rx_view()),
            old(self).tx_view().len() + sent_line(cmd@, prefix).len() <= old(self).tx_cap() ==> (
            final(self).tx_view() == old(self).tx_view() + sent_line(cmd@, prefix) && (match r {
                Ok(resp) => resp@ == exch_resp(old(self).rx_view()) && is_success_text(resp@)
                    && final(self).rx_view() == exch_rest(old(self).rx_view()),
                Err(Esp8266Error::Error(d)) => exch_found(old(self).rx_view())
                    && !is_success_text(exch_resp(old(self).rx_view())) && d@ == exch_resp(
                    old(self).rx_view(),
                ) && final(self).rx_view() == exch_rest(old(self).rx_view()),
                Err(Esp8266Error::Overrun) => read_overruns(
                    MarkerKind::Terminal,
                    old(self).rx_view(),
                    RESP_CAPACITY as int,
                ) && final(self).rx_view() == old(self).rx_view().skip(RESP_CAPACITY as int),
                Err(Esp8266Error::Timeout) => read_times_out(
                    MarkerKind::Terminal,
                    old(self).rx_view(),
                    RESP_CAPACITY as int,
                ) && final(self).rx_view() == Seq::<u8>::empty(),
                _ => false,
            })),
            old(self).tx_view().len() + sent_line(cmd@, prefix).len() <= old(self).tx_cap()
                && exch_found(old(self).rx_view()) && old(self).log_view().len() + sent_line(
                cmd@,
                prefix,
            ).len() + exch_resp(old(self).rx_view()).len() + 2 <= old(self).log_cap()
                ==> final(self).log_view() == old(self).log_view() + sent_line(cmd@, prefix)
                + exch_resp(old(self).rx_view()) + crlf(),
    {
        match self.send_cmd(cmd, prefix) {
            Ok(()) => {},
            Err(e) => {
                return Err(e);
            },
        }
        let raw = match self.read_until(MarkerKind::Terminal, RESP_CAPACITY) {
            Ok(v) => v,
            Err(e) => {
                return Err(e);
            },
        };
        let resp = trim_crlf_exec(raw.as_slice());
        let nl = crlf_bytes();
        let ghost log1 = self.log_view();
        self.log.write_lossy(resp.as_slice());
        self.log.write_lossy(nl.as_slice());
        proof {
            let q0 = old(self).rx_view();
            if old(self).log_view().len() + sent_line(cmd@, prefix).len() + exch_resp(q0).len()
                + 2 <= old(self).log_cap() {
                assert(log1 == old(self).log_view() + sent_line(cmd@, prefix));
                assert(self.log_view() =~= old(self).log_view() + sent_line(cmd@, prefix)
                    + exch_resp(q0) + crlf());
            }
        }
        let token = ok_token_bytes();
        if contains_sub(resp.as_slice(), token.as_slice()) {
            Ok(resp)
        } else {
            Err(Esp8266Error::Error(resp))
        }
    }

    /// Probe the module with the bare "AT" command.
    pub fn at(&mut self) -> (r: Result<(), Esp8266Error>)
        requires
            old(self).wf(),
        ensures
            final(self).wf(),
            Esp8266::same_shape(*old(self), *final(self)),
            r is Ok <==> old(self).tx_view().len() + sent_line(at_probe(), true).len() <= old(
                self,
            ).tx_cap() && exch_ok(old(self).rx_view()),
            r is Ok ==> final(self).tx_view() == old(self).tx_view() + sent_line(at_probe(), true)
                && final(self).rx_view() == exch_rest(old(self).rx_view()),
            r is Err ==> r->Err_0 is Transport || r->Err_0 is Error || r->Err_0 is Overrun
                || r->Err_0 is Timeout,
            r matches Err(Esp8266Error::Transport) ==> old(self).tx_view().len() + sent_line(
                at_probe(),
                true,
            ).len() > old(self).tx_cap() && final(self).tx_view() == old(self).tx_view()
                && final(self).rx_view() == old(self).rx_view(),
            r matches Err(Esp8266Error::Error(d)) ==> exch_found(old(self).rx_view())
                && !is_success_text(exch_resp(old(self).rx_view())) && d@ == exch_resp(
                old(self).rx_view(),
            ) && final(self).tx_view() == old(self).tx_view() + sent_line(at_probe(), true)
                && final(self).rx_view() == exch_rest(old(self).rx_view()),
            r matches Err(Esp8266Error::Overrun) ==> read_overruns(
                MarkerKind::Terminal,
                old(self).rx_view(),
                RESP_CAPACITY as int,
            ) && final(self).tx_view() == old(self).tx_view() + sent_line(at_probe(), true)
                && final(self).rx_view() == old(self).rx_view().skip(RESP_CAPACITY as int),
            r matches Err(Esp8266Error::Timeout) ==> read_times_out(
                MarkerKind::Terminal,
                old(self).rx_view(),
                RESP_CAPACITY as int,
            ) && final(self).tx_view() == old(self).tx_view() + sent_line(at_probe(), true)
                && final(self).rx_view() == Seq::<u8>::empty(),
    {
        let probe = crate::commands::at_probe_bytes();
        match self.communicate(probe.as_slice(), true) {
            Ok(_) => Ok(()),
            Err(e) => Err(e),
        }
    }

    /// Join the wireless network: select station mode, then associate with
    /// the given network name and credential.  Each step is one command
    /// round trip; the first failing step aborts the sequence and its error
    /// is returned unchanged, with the association line — and the credential
    /// it carries — never written after a failed mode-select.  A deployment
    /// inserts a short settling delay between the two commands and tolerates
    /// multi-second association latency; the engine keeps no clock, so that
    /// pacing (and any retry) is the caller's policy.
    pub fn connect_wifi(&mut self, ssid: &[u8], password: &[u8]) -> (r: Result<
        (),
        Esp8266Error,
    >)
        requires
            old(self).wf(),
            ssid@.len() + password@.len() + 64 <= usize::MAX,
        ensures
            final(self).wf(),
            Esp8266::same_shape(*old(self), *final(self)),
            r is Ok <==> join_cmd(ssid@, password@).len() <= CMD_CAPACITY && old(
                self,
            ).tx_view().len() + sent_line(sta_mode_cmd(), true).len() <= old(self).tx_cap()
                && exch_ok(old(self).rx_view()) && old(self).tx_view().len() + sent_line(
                sta_mode_cmd(),
                true,
            ).len() + sent_line(join_cmd(ssid@, password@), true).len() <= old(self).tx_cap()
                && exch_ok(exch_rest(old(self).rx_view())),
            r is Ok ==> final(self).tx_view() == old(self).tx_view() + sent_line(
                sta_mode_cmd(),
                true,
            ) + sent_line(join_cmd(ssid@, password@), true) && final(self).rx_view() == exch_rest(
                exch_rest(old(self).rx_view()),
            ),
            join_cmd(ssid@, password@).len() > CMD_CAPACITY ==> (r matches Err(
                Esp8266Error::Overrun,
            ) && final(self).tx_view() == old(self).tx_view() && final(self).rx_view() == old(
                self,
            ).rx_view()),
            r is Err ==> r->Err_0 is Transport || r->Err_0 is Error || r->Err_0 is Overrun
                || r->Err_0 is Timeout,
            r matches Err(Esp8266Error::Transport) ==> join_cmd(ssid@, password@).len()
                <= CMD_CAPACITY && ((old(self).tx_view().len() + sent_line(
                sta_mode_cmd(),
                true,
            ).len() > old(self).tx_cap() && final(self).tx_view() == old(self).tx_view()
                && final(self).rx_view() == old(self).rx_view()) || (old(self).tx_view().len()
                + sent_line(sta_mode_cmd(), true).len() <= old(self).tx_cap() && exch_ok(
                old(self).rx_view(),
            ) && old(self).tx_view().len() + sent_line(sta_mode_cmd(), true).len() + sent_line(
                join_cmd(ssid@, password@),
                true,
            ).len() > old(self).tx_cap() && final(self).tx_view() == old(self).tx_view()
                + sent_line(sta_mode_cmd(), true) && final(self).rx_view() == exch_rest(
                old(self).rx_view(),
            ))),
            r matches Err(Esp8266Error::Error(d)) ==> join_cmd(ssid@, password@).len()
                <= CMD_CAPACITY && ((old(self).tx_view().len() + sent_line(
                sta_mode_cmd(),
                true,
            ).len() <= old(self).tx_cap() && exch_found(old(self).rx_view()) && !is_success_text(
                exch_resp(old(self).rx_view()),
            ) && d@ == exch_resp(old(self).rx_view()) && final(self).tx_view() == old(self)
                .tx_view() + sent_line(sta_mode_cmd(), true) && final(self).rx_view() == exch_rest(
                old(self).rx_view(),
            )) || (old(self).tx_view().len() + sent_line(sta_mode_cmd(), true).len() + sent_line(
                join_cmd(ssid@, password@),
                true,
            ).len() <= old(self).tx_cap() && exch_ok(old(self).rx_view()) && exch_found(
                exch_rest(old(self).rx_view()),
            ) && !is_success_text(exch_resp(exch_rest(old(self).rx_view()))) && d@ == exch_resp(
                exch_rest(old(self).rx_view()),
            ) && final(self).tx_view() == old(self).tx_view() + sent_line(sta_mode_cmd(), true)
                + sent_line(join_cmd(ssid@, password@), true) && final(self).rx_view()
                == exch_rest(exch_rest(old(self).rx_view())))),
            r matches Err(Esp8266Error::Overrun) ==> (join_cmd(ssid@, password@).len()
                > CMD_CAPACITY && final(self).tx_view() == old(self).tx_view()
                && final(self).rx_view() == old(self).rx_view()) || (join_cmd(
                ssid@,
                password@,
            ).len()
                <= CMD_CAPACITY && ((old(self).tx_view().len() + sent_line(
                sta_mode_cmd(),
                true,
            ).len() <= old(self).tx_cap() && read_overruns(
                MarkerKind::Terminal,
                old(self).rx_view(),
                RESP_CAPACITY as int,
            ) && final(self).tx_view() == old(self).tx_view() + sent_line(sta_mode_cmd(), true)
                && final(self).rx_view() == old(self).rx_view().skip(RESP_CAPACITY as int)) || (
            old(self).tx_view().len() + sent_line(sta_mode_cmd(), true).len() + sent_line(
                join_cmd(ssid@, password@),
                true,
            ).len() <= old(self).tx_cap() && exch_ok(old(self).rx_view()) && read_overruns(
                MarkerKind::Terminal,
                exch_rest(old(self).rx_view()),
                RESP_CAPACITY as int,
            ) && final(self).tx_view() == old(self).tx_view() + sent_line(sta_mode_cmd(), true)
                + sent_line(join_cmd(ssid@, password@), true) && final(self).rx_view()
                == exch_rest(old(self).rx_view()).skip(RESP_CAPACITY as int)))),
            r matches Err(Esp8266Error::Timeout) ==> join_cmd(ssid@, password@).len()
                <= CMD_CAPACITY && ((old(self).tx_view().len() + sent_line(
                sta_mode_cmd(),
                true,
            ).len() <= old(self).tx_cap() && read_times_out(
                MarkerKind::Terminal,
                old(self).rx_view(),
                RESP_CAPACITY as int,
            ) && final(self).tx_view() == old(self).tx_view() + sent_line(sta_mode_cmd(), true)
                && final(self).rx_view() == Seq::<u8>::empty()) || (old(self).tx_view().len()
                + sent_line(sta_mode_cmd(), true).len() + sent_line(
                join_cmd(ssid@, password@),
                true,
            ).len() <= old(self).tx_cap() && exch_ok(old(self).rx_view()) && read_times_out(
                MarkerKind::Terminal,
                exch_rest(old(self).rx_view()),
                RESP_CAPACITY as int,
            ) && final(self).tx_view() == old(self).tx_view() + sent_line(sta_mode_cmd(), true)
                + sent_line(join_cmd(ssid@, password@), true) && final(self).rx_view()
                == Seq::<u8>::empty())),
    {
        let cmd = match set_wifi_ap(ssid, password) {
            Ok(c) => c,
            Err(_) => {
                return Err(Esp8266Error::Overrun);
            },
        };
        let mode = sta_mode_cmd_bytes();
        match self.communicate(mode.as_slice(), true) {
            Ok(_) => {},
            Err(e) => {
                return Err(e);
            },
        }
        match self.communicate(cmd.as_slice(), true) {
            Ok(_) => Ok(()),
            Err(e) => Err(e),
        }
    }

    /// Open the TCP connection, issue the GET, and decode the response.
    ///
    /// In order: the connection-open command, the transmission-mode command
    /// and the send-notification command each make one framed round trip;
    /// then the raw request bytes are written without the "AT" introducer
    /// (the module is in passthrough), acknowledged by a bare success
    /// marker; the socket stream is collected to the connection-closed
    /// marker, its framing segments stripped, and the result decoded.  The
    /// first failing step aborts the sequence with its own error: nothing
    /// after it is sent or consumed.
    pub fn get(&mut self, host: &[u8], port: u16, path: &[u8]) -> (r: Result<
        HttpJsonResp,
        Esp8266Error,
    >)
        requires
            old(self).wf(),
            host@.len() <= 1024,
            path@.len() <= 1024,
        ensures
            final(self).wf(),
            Esp8266::same_shape(*old(self), *final(self)),
            r is Ok <==> cipstart_cmd(host@, port).len() <= CMD_CAPACITY && old(
                self,
            ).tx_view().len() + get_wire(host@, port, path@).len() <= old(self).tx_cap()
                && exch_ok(old(self).rx_view()) && exch_ok(exch_rest(old(self).rx_view()))
                && exch_ok(exch_rest(exch_rest(old(self).rx_view()))) && ack_ok(
                exch_rest3(old(self).rx_view()),
            ) && stream_found(ack_rest(exch_rest3(old(self).rx_view()))) && decode_ok(
                get_reassembled(ack_rest(exch_rest3(old(self).rx_view()))),
            ),
            r is Ok ==> final(self).tx_view() == old(self).tx_view() + get_wire(
                host@,
                port,
                path@,
            ) && final(self).rx_view() == stream_rest(ack_rest(exch_rest3(old(self).rx_view())))
                && r->Ok_0.code == status_of(
                get_reassembled(ack_rest(exch_rest3(old(self).rx_view()))),
            )->Some_0 && r->Ok_0.http_resp@ == get_reassembled(
                ack_rest(exch_rest3(old(self).rx_view())),
            ) && json_view(r->Ok_0.json) == decode_json(
                body_of(get_reassembled(ack_rest(exch_rest3(old(self).rx_view()))))->Some_0,
            )->Some_0,
            r matches Err(Esp8266Error::Transport) ==> cipstart_cmd(host@, port).len()
                <= CMD_CAPACITY && ((old(self).tx_view().len() + cipstart_line(host@, port).len()
                > old(self).tx_cap() && final(self).tx_view() == old(self).tx_view()
                && final(self).rx_view() == old(self).rx_view()) || (old(self).tx_view().len()
                + cipstart_line(host@, port).len() <= old(self).tx_cap() && exch_ok(
                old(self).rx_view(),
            ) && old(self).tx_view().len() + cipstart_line(host@, port).len()
                + cipmode_line().len() > old(self).tx_cap() && final(self).tx_view() == old(
                self,
            ).tx_view() + cipstart_line(host@, port) && final(self).rx_view() == exch_rest(
                old(self).rx_view(),
            )) || (old(self).tx_view().len() + cipstart_line(host@, port).len()
                + cipmode_line().len() <= old(self).tx_cap() && exch_ok(old(self).rx_view())
                && exch_ok(exch_rest(old(self).rx_view())) && old(self).tx_view().len()
                + cipstart_line(host@, port).len() + cipmode_line().len() + cipsend_line(
                host@,
                port,
                path@,
            ).len() > old(self).tx_cap() && final(self).tx_view() == old(self).tx_view()
                + cipstart_line(host@, port) + cipmode_line() && final(self).rx_view()
                == exch_rest(exch_rest(old(self).rx_view()))) || (old(self).tx_view().len()
                + cipstart_line(host@, port).len() + cipmode_line().len() + cipsend_line(
                host@,
                port,
                path@,
            ).len() <= old(self).tx_cap() && exch_ok(old(self).rx_view()) && exch_ok(
                exch_rest(old(self).rx_view()),
            ) && exch_ok(exch_rest(exch_rest(old(self).rx_view()))) && old(self).tx_view().len()
                + get_wire(host@, port, path@).len() > old(self).tx_cap() && final(self).tx_view()
                == old(self).tx_view() + cipstart_line(host@, port) + cipmode_line()
                + cipsend_line(host@, port, path@) && final(self).rx_view() == exch_rest3(
                old(self).rx_view(),
            ))),
            r matches Err(Esp8266Error::Error(d)) ==> cipstart_cmd(host@, port).len()
                <= CMD_CAPACITY && ((old(self).tx_view().len() + cipstart_line(host@, port).len()
                <= old(self).tx_cap() && exch_found(old(self).rx_view()) && !is_success_text(
                exch_resp(old(self).rx_view()),
            ) && d@ == exch_resp(old(self).rx_view()) && final(self).tx_view() == old(
                self,
            ).tx_view() + cipstart_line(host@, port) && final(self).rx_view() == exch_rest(
                old(self).rx_view(),
            )) || (old(self).tx_view().len() + cipstart_line(host@, port).len()
                + cipmode_line().len() <= old(self).tx_cap() && exch_ok(old(self).rx_view())
                && exch_found(exch_rest(old(self).rx_view())) && !is_success_text(
                exch_resp(exch_rest(old(self).rx_view())),
            ) && d@ == exch_resp(exch_rest(old(self).rx_view())) && final(self).tx_view() == old(
                self,
            ).tx_view() + cipstart_line(host@, port) + cipmode_line() && final(self).rx_view()
                == exch_rest(exch_rest(old(self).rx_view()))) || (old(self).tx_view().len()
                + cipstart_line(host@, port).len() + cipmode_line().len() + cipsend_line(
                host@,
                port,
                path@,
            ).len() <= old(self).tx_cap() && exch_ok(old(self).rx_view()) && exch_ok(
                exch_rest(old(self).rx_view()),
            ) && exch_found(exch_rest(exch_rest(old(self).rx_view()))) && !is_success_text(
                exch_resp(exch_rest(exch_rest(old(self).rx_view()))),
            ) && d@ == exch_resp(exch_rest(exch_rest(old(self).rx_view()))) && final(self)
                .tx_view() == old(self).tx_view() + cipstart_line(host@, port) + cipmode_line()
                + cipsend_line(host@, port, path@) && final(self).rx_view() == exch_rest3(
                old(self).rx_view(),
            ))),
            r matches Err(Esp8266Error::GetError(d)) ==> exch_ok(old(self).rx_view())
                && exch_ok(exch_rest(old(self).rx_view())) && exch_ok(
                exch_rest(exch_rest(old(self).rx_view())),
            ) && ack_found(exch_rest3(old(self).rx_view())) && !line_anchored_at_end(
                ack_raw(exch_rest3(old(self).rx_view())),
                ok_marker(),
            ) && d@ == ack_raw(exch_rest3(old(self).rx_view())) && final(self).tx_view() == old(
                self,
            ).tx_view() + get_wire(host@, port, path@) && final(self).rx_view() == ack_rest(
                exch_rest3(old(self).rx_view()),
            ),
            r matches Err(Esp8266Error::ParseError) ==> exch_ok(old(self).rx_view()) && exch_ok(
                exch_rest(old(self).rx_view()),
            ) && exch_ok(exch_rest(exch_rest(old(self).rx_view()))) && ack_ok(
                exch_rest3(old(self).rx_view()),
            ) && stream_found(ack_rest(exch_rest3(old(self).rx_view()))) && (status_of(
                get_reassembled(ack_rest(exch_rest3(old(self).rx_view()))),
            ) is None || body_of(get_reassembled(ack_rest(exch_rest3(old(self).rx_view()))))
                is None) && final(self).tx_view() == old(self).tx_view() + get_wire(
                host@,
                port,
                path@,
            ) && final(self).rx_view() == stream_rest(ack_rest(exch_rest3(old(self).rx_view()))),
            r matches Err(Esp8266Error::JsonError) ==> exch_ok(old(self).rx_view()) && exch_ok(
                exch_rest(old(self).rx_view()),
            ) && exch_ok(exch_rest(exch_rest(old(self).rx_view()))) && ack_ok(
                exch_rest3(old(self).rx_view()),
            ) && stream_found(ack_rest(exch_rest3(old(self).rx_view()))) && status_of(
                get_reassembled(ack_rest(exch_rest3(old(self).rx_view()))),
            ) is Some && body_of(get_reassembled(ack_rest(exch_rest3(old(self).rx_view()))))
                is Some && decode_json(
                body_of(get_reassembled(ack_rest(exch_rest3(old(self).rx_view()))))->Some_0,
            ) is None && final(self).tx_view() == old(self).tx_view() + get_wire(
                host@,
                port,
                path@,
            ) && final(self).rx_view() == stream_rest(ack_rest(exch_rest3(old(self).rx_view()))),
            r matches Err(Esp8266Error::Overrun) ==> (cipstart_cmd(host@, port).len()
                > CMD_CAPACITY && final(self).tx_view() == old(self).tx_view()
                && final(self).rx_view() == old(self).rx_view()) || (cipstart_cmd(
                host@,
                port,
            ).len() <= CMD_CAPACITY && ((old(self).tx_view().len() + cipstart_line(
                host@,
                port,
            ).len() <= old(self).tx_cap() && read_overruns(
                MarkerKind::Terminal,
                old(self).rx_view(),
                RESP_CAPACITY as int,
            ) && final(self).tx_view() == old(self).tx_view() + cipstart_line(host@, port)
                && final(self).rx_view() == old(self).rx_view().skip(RESP_CAPACITY as int)) || (
            old(self).tx_view().len() + cipstart_line(host@, port).len() + cipmode_line().len()
                <= old(self).tx_cap() && exch_ok(old(self).rx_view()) && read_overruns(
                MarkerKind::Terminal,
                exch_rest(old(self).rx_view()),
                RESP_CAPACITY as int,
            ) && final(self).tx_view() == old(self).tx_view() + cipstart_line(host@, port)
                + cipmode_line() && final(self).rx_view() == exch_rest(old(self).rx_view()).skip(
                RESP_CAPACITY as int,
            )) || (old(self).tx_view().len() + cipstart_line(host@, port).len()
                + cipmode_line().len() + cipsend_line(host@, port, path@).len() <= old(
                self,
            ).tx_cap() && exch_ok(old(self).rx_view()) && exch_ok(exch_rest(old(self).rx_view()))
                && read_overruns(
                MarkerKind::Terminal,
                exch_rest(exch_rest(old(self).rx_view())),
                RESP_CAPACITY as int,
            ) && final(self).tx_view() == old(self).tx_view() + cipstart_line(host@, port)
                + cipmode_line() + cipsend_line(host@, port, path@) && final(self).rx_view()
                == exch_rest(exch_rest(old(self).rx_view())).skip(RESP_CAPACITY as int)) || (
            old(self).tx_view().len() + get_wire(host@, port, path@).len() <= old(self).tx_cap()
                && exch_ok(old(self).rx_view()) && exch_ok(exch_rest(old(self).rx_view()))
                && exch_ok(exch_rest(exch_rest(old(self).rx_view()))) && read_overruns(
                MarkerKind::Terminal,
                exch_rest3(old(self).rx_view()),
                ACK_CAPACITY as int,
            ) && final(self).tx_view() == old(self).tx_view() + get_wire(host@, port, path@)
                && final(self).rx_view() == exch_rest3(old(self).rx_view()).skip(
                ACK_CAPACITY as int,
            )) || (old(self).tx_view().len() + get_wire(host@, port, path@).len() <= old(
                self,
            ).tx_cap() && exch_ok(old(self).rx_view()) && exch_ok(exch_rest(old(self).rx_view()))
                && exch_ok(exch_rest(exch_rest(old(self).rx_view()))) && ack_ok(
                exch_rest3(old(self).rx_view()),
            ) && read_overruns(
                MarkerKind::Closed,
                ack_rest(exch_rest3(old(self).rx_view())),
                STREAM_CAPACITY as int,
            ) && final(self).tx_view() == old(self).tx_view() + get_wire(host@, port, path@)
                && final(self).rx_view() == ack_rest(exch_rest3(old(self).rx_view())).skip(
                STREAM_CAPACITY as int,
            )))),
            r matches Err(Esp8266Error::Timeout) ==> cipstart_cmd(host@, port).len()
                <= CMD_CAPACITY && ((old(self).tx_view().len() + cipstart_line(host@, port).len()
                <= old(self).tx_cap() && read_times_out(
                MarkerKind::Terminal,
                old(self).rx_view(),
                RESP_CAPACITY as int,
            ) && final(self).tx_view() == old(self).tx_view() + cipstart_line(host@, port)
                && final(self).rx_view() == Seq::<u8>::empty()) || (old(self).tx_view().len()
                + cipstart_line(host@, port).len() + cipmode_line().len() <= old(self).tx_cap()
                && exch_ok(old(self).rx_view()) && read_times_out(
                MarkerKind::Terminal,
                exch_rest(old(self).rx_view()),
                RESP_CAPACITY as int,
            ) && final(self).tx_view() == old(self).tx_view() + cipstart_line(host@, port)
                + cipmode_line() && final(self).rx_view() == Seq::<u8>::empty()) || (old(
                self,
            ).tx_view().len() + cipstart_line(host@, port).len() + cipmode_line().len()
                + cipsend_line(host@, port, path@).len() <= old(self).tx_cap() && exch_ok(
                old(self).rx_view(),
            ) && exch_ok(exch_rest(old(self).rx_view())) && read_times_out(
                MarkerKind::Terminal,
                exch_rest(exch_rest(old(self).rx_view())),
                RESP_CAPACITY as int,
            ) && final(self).tx_view() == old(self).tx_view() + cipstart_line(host@, port)
                + cipmode_line() + cipsend_line(host@, port, path@) && final(self).rx_view()
                == Seq::<u8>::empty()) || (old(self).tx_view().len() + get_wire(
                host@,
                port,
                path@,
            ).len() <= old(self).tx_cap() && exch_ok(old(self).rx_view()) && exch_ok(
                exch_rest(old(self).rx_view()),
            ) && exch_ok(exch_rest(exch_rest(old(self).rx_view()))) && read_times_out(
                MarkerKind::Terminal,
                exch_rest3(old(self).rx_view()),
                ACK_CAPACITY as int,
            ) && final(self).tx_view() == old(self).tx_view() + get_wire(host@, port, path@)
                && final(self).rx_view() == Seq::<u8>::empty()) || (old(self).tx_view().len()
                + get_wire(host@, port, path@).len() <= old(self).tx_cap() && exch_ok(
                old(self).rx_view(),
            ) && exch_ok(exch_rest(old(self).rx_view())) && exch_ok(
                exch_rest(exch_rest(old(self).rx_view())),
            ) && ack_ok(exch_rest3(old(self).rx_view())) && read_times_out(
                MarkerKind::Closed,
                ack_rest(exch_rest3(old(self).rx_view())),
                STREAM_CAPACITY as int,
            ) && final(self).tx_view() == old(self).tx_view() + get_wire(host@, port, path@)
                && final(self).rx_view() == Seq::<u8>::empty())),
    {
        let ghost q0 = self.rx_view();
        let ghost tx0 = self.tx_view();
        let ghost l1 = sent_line(cipstart_cmd(host@, port), true);
        let ghost l2 = sent_line(normal_transmission_cmd(), true);
        let ghost l3 = sent_line(cipsend_cmd(http_get_cmd(host@, port, path@).len()), true);
        let ghost l4 = sent_line(http_get_cmd(host@, port, path@), false);
        proof {
            assert(get_wire(host@, port, path@) =~= l1 + l2 + l3 + l4);
            lemma_dec_rep_len_u16(port as nat);
        }
        let cip = match start_tcp_connection(host, port) {
            Ok(c) => c,
            Err(_) => {
                return Err(Esp8266Error::Overrun);
            },
        };
        match self.communicate(cip.as_slice(), true) {
            Ok(_) => {},
            Err(e) => {
                return Err(e);
            },
        }
        let ghost q1 = exch_rest(q0);
        let mode = normal_transmission_cmd_bytes();
        match self.communicate(mode.as_slice(), true) {
            Ok(_) => {},
            Err(e) => {
                return Err(e);
            },
        }
        let ghost q2 = exch_rest(q1);
        let http = http_get_payload(host, port, path);
        assert(http@.len() <= 65535);
        proof {
            lemma_dec_rep_len_u16(http@.len() as nat);
        }
        let cs = cipsend(http.len());
        match self.communicate(cs.as_slice(), true) {
            Ok(_) => {},
            Err(e) => {
                return Err(e);
            },
        }
        let ghost q3 = exch_rest(q2);
        assert(q3 == exch_rest3(q0));
        match self.send_cmd(http.as_slice(), false) {
            Ok(()) => {},
            Err(e) => {
                return Err(e);
            },
        }
        assert(self.tx_view() =~= tx0 + get_wire(host@, port, path@));
        let ack = match self.read_until(MarkerKind::Terminal, ACK_CAPACITY) {
            Ok(b) => b,
            Err(e) => {
                return Err(e);
            },
        };
        let okm = ok_marker_bytes();
        if !is_anchored(ack.as_slice(), okm.as_slice()) {
            return Err(Esp8266Error::GetError(ack));
        }
        let ghost q4 = ack_rest(q3);
        let raw = match self.read_until(MarkerKind::Closed, STREAM_CAPACITY) {
            Ok(b) => b,
            Err(e) => {
                return Err(e);
            },
        };
        let rl: usize = raw.len();
        assert(ends_with(raw@, closed_marker()));
        assert(rl >= 8);
        let payload = vstd::slice::slice_subrange(raw.as_slice(), 0, rl - 8);
        assert(payload@ =~= stream_payload(q4));
        let reassembled = reassemble(payload);
        assert(reassembled@ == get_reassembled(q4));
        match decode(reassembled.as_slice()) {
            Ok(resp) => Ok(resp),
            Err(e) => Err(e),
        }
    }

    /// Reset the module and discard whatever it prints while rebooting.
    pub fn reset(&mut self) -> (r: Result<(), Esp8266Error>)
        requires
            old(self).wf(),
        ensures
            final(self).wf(),
            Esp8266::same_shape(*old(self), *final(self)),
            r is Ok <==> old(self).tx_view().len() + sent_line(reset_cmd(), true).len() <= old(
                self,
            ).tx_cap(),
            r is Ok ==> final(self).tx_view() == old(self).tx_view() + sent_line(reset_cmd(), true)
                && final(self).rx_view() == Seq::<u8>::empty(),
            r is Err ==> r->Err_0 is Transport && final(self).tx_view() == old(self).tx_view()
                && final(self).rx_view() == old(self).rx_view(),
    {
        let cmd = reset_cmd_bytes();
        match self.send_cmd(cmd.as_slice(), true) {
            Ok(()) => {},
            Err(e) => {
                return Err(e);
            },
        }
        while self.rx.len() > 0
            invariant
                self.wf(),
                Esp8266::same_shape(*old(self), *self),
                self.tx_view() == old(self).tx_view() + sent_line(reset_cmd(), true),
                self.log_view().len() <= self.log_cap(),
            decreases self.rx.view().len(),
        {
            self.rx.pop();
        }
        Ok(())
    }
}

} // verus!
