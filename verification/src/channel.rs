//! The byte channel between the engine and its surroundings.
//!
//! `RxQueue` is the bounded single-producer/single-consumer queue of bytes
//! arriving from the radio module: the receive interrupt (or, in tests, a
//! scripted source) is the only producer, the protocol engine the only
//! consumer.  A sustained arrival rate above the consumption rate loses
//! bytes at the producer side; the queue never grows past its capacity.
//!
//! `ByteSink` is a bounded append-only buffer standing for a blocking byte
//! write channel.  `write_all` is all-or-nothing and reports a full sink,
//! `write_lossy` keeps whatever fits and is used for best-effort
//! diagnostics.

use vstd::prelude::*;

verus! {

/// Bounded byte queue: producer pushes at the back, consumer pops the front.
pub struct RxQueue {
    data: Vec<u8>,
    cap: usize,
}

impl RxQueue {
    /// The bytes currently queued, front first.
    pub closed spec fn view(&self) -> Seq<u8> {
        self.data@
    }

    /// The fixed capacity the queue was created with.
    pub closed spec fn cap(&self) -> int {
        self.cap as int
    }

    /// The queue never holds more than its capacity.
    pub open spec fn wf(&self) -> bool {
        self.view().len() <= self.cap()
    }

    pub fn new(cap: usize) -> (q: RxQueue)
        ensures
            q.wf(),
            q.view() == Seq::<u8>::empty(),
            q.cap() == cap,
    {
        RxQueue { data: Vec::new(), cap }
    }

    /// Producer side: enqueue one byte; a full queue drops it and reports so.
    pub fn push(&mut self, b: u8) -> (accepted: bool)
        requires
            old(self).wf(),
        ensures
            final(self).wf(),
            final(self).cap() == old(self).cap(),
            accepted == (old(self).view().len() < old(self).cap()),
            accepted ==> final(self).view() == old(self).view().push(b),
            !accepted ==> final(self).view() == old(self).view(),
    {
        if self.data.len() < self.cap {
            self.data.push(b);
            true
        } else {
            false
        }
    }

    /// Consumer side: dequeue the oldest byte; `None` means "would block".
    pub fn pop(&mut self) -> (r: Option<u8>)
        requires
            old(self).wf(),
        ensures
            final(self).wf(),
            final(self).cap() == old(self).cap(),
            old(self).view().len() == 0 ==> r is None && final(self).view() == old(self).view(),
            old(self).view().len() > 0 ==> r == Some(old(self).view()[0]) && final(self).view()
                == old(self).view().skip(1),
    {
        if self.data.len() == 0 {
            None
        } else {
            let b = self.data.remove(0);
            assert(self.view() =~= old(self).view().skip(1));
            Some(b)
        }
    }

    pub fn len(&self) -> (n: usize)
        ensures
            n == self.view().len(),
    {
        self.data.len()
    }
}

/// Bounded append-only byte buffer standing for a write channel.
pub struct ByteSink {
    data: Vec<u8>,
    cap: usize,
}

impl ByteSink {
    /// The bytes accepted so far, in order.
    pub closed spec fn view(&self) -> Seq<u8> {
        self.data@
    }

    /// The fixed capacity the sink was created with.
    pub closed spec fn cap(&self) -> int {
        self.cap as int
    }

    /// The sink never holds more than its capacity.
    pub open spec fn wf(&self) -> bool {
        self.view().len() <= self.cap()
    }

    pub fn new(cap: usize) -> (s: ByteSink)
        ensures
            s.wf(),
            s.view() == Seq::<u8>::empty(),
            s.cap() == cap,
    {
        ByteSink { data: Vec::new(), cap }
    }

    /// Accept all of `src`, or nothing when it does not fit.
    pub fn write_all(&mut self, src: &[u8]) -> (accepted: bool)
        requires
            old(self).wf(),
        ensures
            final(self).wf(),
            final(self).cap() == old(self).cap(),
            accepted == (old(self).view().len() + src@.len() <= old(self).cap()),
            accepted ==> final(self).view() == old(self).view() + src@,
            !accepted ==> final(self).view() == old(self).view(),
    {
        if src.len() <= self.cap - self.data.len() {
            crate::bytes::append_bytes(&mut self.data, src);
            true
        } else {
            false
        }
    }

    /// Accept the prefix of `src` that fits; for best-effort diagnostics.
    pub fn write_lossy(&mut self, src: &[u8])
        requires
            old(self).wf(),
        ensures
            final(self).wf(),
            final(self).cap() == old(self).cap(),
            final(self).view() == old(self).view() + src@.take(
                (if old(self).view().len() + src@.len() <= old(self).cap() {
                    src@.len() as int
                } else {
                    old(self).cap() - old(self).view().len()
                }),
            ),
            old(self).view().len() + src@.len() <= old(self).cap() ==> final(self).view() == old(
                self,
            ).view() + src@,
    {
        let room: usize = self.cap - self.data.len();
        if src.len() <= room {
            crate::bytes::append_bytes(&mut self.data, src);
            assert(src@.take(src@.len() as int) =~= src@);
        } else {
            let part = vstd::slice::slice_subrange(src, 0, room);
            crate::bytes::append_bytes(&mut self.data, part);
        }
    }

    /// How many more bytes the sink can accept.
    pub fn remaining(&self) -> (n: usize)
        requires
            self.wf(),
        ensures
            n == self.cap() - self.view().len(),
    {
        self.cap - self.data.len()
    }

    /// Read access to what was written, for callers that render or inspect it.
    pub fn contents(&self) -> (s: &[u8])
        ensures
            s@ == self.view(),
    {
        self.data.as_slice()
    }

    pub fn len(&self) -> (n: usize)
        ensures
            n == self.view().len(),
    {
        self.data.len()
    }
}

} // verus!
