//! A WebSocket message stream read as a byte stream.
use vstd::prelude::*;
use crate::octets::{append_bytes, copy_range};

verus! {

/// What a read of the stream gives.
pub enum ReadStep {
    /// Bytes from the messages received so far, at most as many as asked for.
    Data(Vec<u8>),
    /// Nothing is buffered: the next event of the socket is needed.
    NeedEvent,
    /// The socket closed and everything was read: a read of zero bytes.
    Eof,
}

/// The reassembly buffer of an inbound WebSocket: message payloads are
/// appended in arrival order and read out in that order.
pub struct WebSocketStream {
    pub buffer: Vec<u8>,
    pub closed: bool,
    /// Every payload byte received, in order.
    pub received: Ghost<Seq<u8>>,
    /// Every byte handed out by reads, in order.
    pub delivered: Ghost<Seq<u8>>,
}

impl WebSocketStream {
    /// The bytes handed out, followed by those still buffered, are exactly
    /// the payloads received, in order.
    pub open spec fn wf(&self) -> bool {
        self.delivered@ + self.buffer@ == self.received@
    }

    /// The bytes received and not yet read.
    pub open spec fn pending(&self) -> Seq<u8> {
        self.buffer@
    }

    /// A non-message event has been seen.
    pub open spec fn is_closed(&self) -> bool {
        self.closed
    }

    /// A stream that has received nothing.
    pub fn new() -> (r: WebSocketStream)
        ensures
            r.wf(),
            r.received@ == Seq::<u8>::empty(),
            r.delivered@ == Seq::<u8>::empty(),
            !r.is_closed(),
    {
        let r = WebSocketStream {
            buffer: Vec::new(),
            closed: false,
            received: Ghost(Seq::empty()),
            delivered: Ghost(Seq::empty()),
        };
        assert(r.delivered@ + r.buffer@ =~= r.received@);
        r
    }

    /// A message event: its payload joins the buffer.
    pub fn push_message(&mut self, payload: &[u8])
        requires
            old(self).wf(),
        ensures
            final(self).wf(),
            final(self).received@ == old(self).received@ + payload@,
            final(self).delivered@ == old(self).delivered@,
            final(self).pending() == old(self).pending() + payload@,
            final(self).is_closed() == old(self).is_closed(),
    {
        append_bytes(&mut self.buffer, payload);
        self.received = Ghost(self.received@ + payload@);
        assert(self.delivered@ + self.buffer@ =~= self.received@);
    }

    /// Any other event (a close, an error, the end of the events): once the
    /// buffer is drained, reads give end of stream.
    pub fn close(&mut self)
        requires
            old(self).wf(),
        ensures
            final(self).wf(),
            final(self).received@ == old(self).received@,
            final(self).delivered@ == old(self).delivered@,
            final(self).pending() == old(self).pending(),
            final(self).is_closed(),
    {
        self.closed = true;
    }

    /// Reads at most `max` bytes: the oldest buffered ones; with nothing
    /// buffered, end of stream once closed and a call for the next event
    /// before.
    pub fn poll_read(&mut self, max: usize) -> (r: ReadStep)
        requires
            old(self).wf(),
        ensures
            final(self).wf(),
            final(self).received@ == old(self).received@,
            final(self).is_closed() == old(self).is_closed(),
            match r {
                ReadStep::Data(d) => {
                    let n = if max < old(self).pending().len() {
                        max as int
                    } else {
                        old(self).pending().len() as int
                    };
                    &&& (old(self).pending().len() > 0 || max == 0)
                    &&& d@ == old(self).pending().take(n)
                    &&& final(self).pending() == old(self).pending().skip(n)
                    &&& final(self).delivered@ == old(self).delivered@ + d@
                },
                ReadStep::NeedEvent => old(self).pending().len() == 0 && max > 0 && !old(self).is_closed()
                    && final(self).pending() == old(self).pending() && final(self).delivered@ == old(self).delivered@,
                ReadStep::Eof => old(self).pending().len() == 0 && max > 0 && old(self).is_closed()
                    && final(self).pending() == old(self).pending() && final(self).delivered@ == old(self).delivered@,
            },
    {
        let len = self.buffer.len();
        if len > 0 || max == 0 {
            let n = if max < len {
                max
            } else {
                len
            };
            let d = copy_range(self.buffer.as_slice(), 0, n);
            let rest = copy_range(self.buffer.as_slice(), n, len);
            proof {
                assert(self.buffer@ =~= d@ + rest@);
            }
            self.buffer = rest;
            self.delivered = Ghost(self.delivered@ + d@);
            assert(self.delivered@ + self.buffer@ =~= self.received@);
            ReadStep::Data(d)
        } else if self.closed {
            ReadStep::Eof
        } else {
            ReadStep::NeedEvent
        }
    }
}

/// Once the stream is closed and drained, everything read is exactly the
/// concatenation of the payloads received, in order.
pub proof fn lemma_drained_reads(s: WebSocketStream)
    requires
        s.wf(),
        s.pending().len() == 0,
    ensures
        s.delivered@ == s.received@,
{
    assert(s.delivered@ + s.pending() =~= s.delivered@);
}

} // verus!
