//! IP ranges given by a network address and a prefix length.
use vstd::prelude::*;

verus! {

/// The first `p` bits of `a` and `b` agree, and both are addresses of one family.
pub open spec fn prefix_match(a: Seq<u8>, b: Seq<u8>, p: nat) -> bool {
    &&& a.len() == b.len()
    &&& p <= 8 * a.len()
    &&& forall|j: int| 0 <= j < p / 8 ==> a[j] == b[j]
    &&& p % 8 != 0 ==> (a[(p / 8) as int] >> ((8 - p % 8) as u8)) == (b[(p / 8) as int] >> ((
        8 - p % 8) as u8))
}

/// An IPv4 or IPv6 range: the address bytes of the network and the length of
/// the prefix that its members share.
#[derive(Debug)]
pub struct Cidr {
    pub addr: Vec<u8>,
    pub prefix: u8,
}

/// A range as the network's address bytes and the prefix length.
pub ghost struct CidrView {
    pub network: Seq<u8>,
    pub prefix: nat,
}

impl View for Cidr {
    type V = CidrView;

    open spec fn view(&self) -> CidrView {
        CidrView { network: self.addr@, prefix: self.prefix as nat }
    }
}

impl Clone for Cidr {
    fn clone(&self) -> (r: Self)
        ensures
            r@ == self@,
    {
        let addr = self.addr.clone();
        assert(addr@ =~= self.addr@);
        Cidr { addr, prefix: self.prefix }
    }
}

impl Cidr {
    /// Four network bytes with a prefix of at most 32 bits, or sixteen with
    /// one of at most 128.
    pub open spec fn wf(&self) -> bool {
        (self.addr@.len() == 4 && self.prefix <= 32) || (self.addr@.len() == 16 && self.prefix
            <= 128)
    }

    /// The range of the addresses that share the first `prefix` bits of `addr`;
    /// `None` where `addr` is not four or sixteen bytes or the prefix is longer
    /// than the address.
    pub fn new(addr: Vec<u8>, prefix: u8) -> (r: Option<Cidr>)
        ensures
            match r {
                Some(c) => c.wf() && c@.network == addr@ && c@.prefix == prefix as nat,
                None => !((addr@.len() == 4 && prefix <= 32) || (addr@.len() == 16 && prefix
                    <= 128)),
            },
    {
        if (addr.len() == 4 && prefix <= 32) || (addr.len() == 16 && prefix <= 128) {
            Some(Cidr { addr, prefix })
        } else {
            None
        }
    }

    /// Whether the address bytes `ip` lie in this range.
    pub fn contains(&self, ip: &[u8]) -> (r: bool)
        requires
            self.wf(),
        ensures
            r == prefix_match(self@.network, ip@, self@.prefix),
    {
        if ip.len() != self.addr.len() {
            return false;
        }
        let p = self.prefix as usize;
        let whole = p / 8;
        let mut j: usize = 0;
        while j < whole
            invariant
                self.wf(),
                ip@.len() == self.addr@.len(),
                p == self.prefix as usize,
                whole == p / 8,
                whole <= self.addr@.len(),
                j <= whole,
                forall|k: int| 0 <= k < j ==> self.addr@[k] == ip@[k],
            decreases whole - j,
        {
            if self.addr[j] != ip[j] {
                return false;
            }
            j = j + 1;
        }
        let rem = p % 8;
        if rem != 0 {
            let shift = (8 - rem) as u8;
            (self.addr[whole] >> shift) == (ip[whole] >> shift)
        } else {
            true
        }
    }
}

} // verus!
