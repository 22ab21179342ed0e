//! The full-duplex copy between the client and the upstream once the tunnel
//! stands: bytes go through in order in each direction, and the client gets
//! the response preamble before anything from the upstream.
use vstd::prelude::*;
use crate::octets::append_bytes;

verus! {

/// What the pump has carried so far, in each direction.
pub struct Pump {
    /// The preamble, while it is still to be sent to the client.
    pub pending: Vec<u8>,
    pub preamble_sent: bool,
    /// The preamble the pump was made with.
    pub preamble: Ghost<Seq<u8>>,
    /// Every byte read from the client, and every byte written upstream.
    pub from_client: Ghost<Seq<u8>>,
    pub to_upstream: Ghost<Seq<u8>>,
    /// Every byte read from the upstream, and every byte written to the client.
    pub from_upstream: Ghost<Seq<u8>>,
    pub to_client: Ghost<Seq<u8>>,
}

impl Pump {
    /// The upstream has been sent exactly what the client sent; the client
    /// has been sent nothing, or the preamble followed by exactly what the
    /// upstream sent.
    pub open spec fn wf(&self) -> bool {
        &&& self.to_upstream@ == self.from_client@
        &&& self.preamble_sent ==> self.to_client@ == self.preamble@ + self.from_upstream@
        &&& !self.preamble_sent ==> self.to_client@ == Seq::<u8>::empty() && self.from_upstream@
            == Seq::<u8>::empty() && self.pending@ == self.preamble@
    }

    /// A pump that has carried nothing yet and owes the client `preamble`.
    pub fn new(preamble: Vec<u8>) -> (r: Pump)
        ensures
            r.wf(),
            r.preamble@ == preamble@,
            !r.preamble_sent,
            r.from_client@ == Seq::<u8>::empty(),
            r.to_upstream@ == Seq::<u8>::empty(),
    {
        let ghost p = preamble@;
        Pump {
            pending: preamble,
            preamble_sent: false,
            preamble: Ghost(p),
            from_client: Ghost(Seq::empty()),
            to_upstream: Ghost(Seq::empty()),
            from_upstream: Ghost(Seq::empty()),
            to_client: Ghost(Seq::empty()),
        }
    }

    /// The bytes that are owed to the client before anything else: the
    /// preamble the first time, nothing after.
    pub fn start(&mut self) -> (r: Vec<u8>)
        requires
            old(self).wf(),
        ensures
            final(self).wf(),
            final(self).preamble_sent,
            final(self).preamble@ == old(self).preamble@,
            final(self).from_client@ == old(self).from_client@,
            final(self).from_upstream@ == old(self).from_upstream@,
            final(self).to_client@ == old(self).to_client@ + r@,
            final(self).to_upstream@ == old(self).to_upstream@,
            !old(self).preamble_sent ==> r@ == old(self).preamble@,
            old(self).preamble_sent ==> r@ == Seq::<u8>::empty(),
    {
        if self.preamble_sent {
            let r: Vec<u8> = Vec::new();
            assert(self.to_client@ + r@ =~= self.to_client@);
            r
        } else {
            let r = self.pending.clone();
            assert(r@ =~= self.pending@);
            self.pending = Vec::new();
            self.preamble_sent = true;
            self.to_client = Ghost(self.to_client@ + r@);
            assert(self.to_client@ =~= self.preamble@ + self.from_upstream@);
            r
        }
    }

    /// Bytes read from the client: what to write upstream.
    pub fn client_data(&mut self, data: &[u8]) -> (r: Vec<u8>)
        requires
            old(self).wf(),
        ensures
            final(self).wf(),
            r@ == data@,
            final(self).preamble_sent == old(self).preamble_sent,
            final(self).preamble@ == old(self).preamble@,
            final(self).from_client@ == old(self).from_client@ + data@,
            final(self).to_upstream@ == old(self).to_upstream@ + data@,
            final(self).from_upstream@ == old(self).from_upstream@,
            final(self).to_client@ == old(self).to_client@,
    {
        let mut r: Vec<u8> = Vec::new();
        append_bytes(&mut r, data);
        assert(r@ =~= data@);
        self.from_client = Ghost(self.from_client@ + data@);
        self.to_upstream = Ghost(self.to_upstream@ + r@);
        r
    }

    /// Bytes read from the upstream: what to write to the client, the
    /// preamble first where it has not gone out yet.
    pub fn upstream_data(&mut self, data: &[u8]) -> (r: Vec<u8>)
        requires
            old(self).wf(),
        ensures
            final(self).wf(),
            final(self).preamble_sent,
            final(self).preamble@ == old(self).preamble@,
            !old(self).preamble_sent ==> r@ == old(self).preamble@ + data@,
            old(self).preamble_sent ==> r@ == data@,
            final(self).from_upstream@ == old(self).from_upstream@ + data@,
            final(self).to_client@ == old(self).to_client@ + r@,
            final(self).from_client@ == old(self).from_client@,
            final(self).to_upstream@ == old(self).to_upstream@,
    {
        let mut r = self.start();
        append_bytes(&mut r, data);
        self.from_upstream = Ghost(self.from_upstream@ + data@);
        self.to_client = Ghost(self.to_client@ + data@);
        assert(self.to_client@ =~= self.preamble@ + self.from_upstream@);
        r
    }
}

/// Once the pump has started, the upstream has received exactly the client's
/// bytes and the client exactly the preamble followed by the upstream's
/// bytes, each in order, however the reads interleaved.
pub proof fn lemma_pump_delivers(p: Pump)
    requires
        p.wf(),
        p.preamble_sent,
    ensures
        p.to_upstream@ == p.from_client@,
        p.to_client@ == p.preamble@ + p.from_upstream@,
{
}

} // verus!
