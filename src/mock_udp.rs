//! The single-slot answer buffer of the DNS-over-HTTPS stand-in for UDP.
use vstd::prelude::*;
use crate::octets::copy_range;

verus! {

/// The last DNS answer received and not yet read; a new answer replaces it.
pub struct ResponseSlot {
    pub response: Option<Vec<u8>>,
}

impl ResponseSlot {
    /// An empty slot.
    pub fn new() -> (r: ResponseSlot)
        ensures
            r.response is None,
    {
        ResponseSlot { response: None }
    }

    /// Stages an answer, replacing any unread one.
    pub fn set_response(&mut self, response: Vec<u8>)
        ensures
            final(self).response matches Some(v) && v@ == response@,
    {
        self.response = Some(response);
    }

    /// Takes the staged answer for a read of at most `max` bytes: its first
    /// `max` bytes, the slot emptied. `None` while no answer is staged: the
    /// reader waits.
    pub fn take(&mut self, max: usize) -> (r: Option<Vec<u8>>)
        ensures
            final(self).response is None,
            match old(self).response {
                None => r is None,
                Some(v) => r matches Some(d) && d@ == v@.take(
                    if max < v@.len() {
                        max as int
                    } else {
                        v@.len() as int
                    },
                ),
            },
    {
        match &self.response {
            None => None,
            Some(v) => {
                let n = if max < v.len() {
                    max
                } else {
                    v.len()
                };
                let d = copy_range(v.as_slice(), 0, n);
                assert(d@ =~= v@.take(n as int));
                self.response = None;
                Some(d)
            },
        }
    }
}

} // verus!
