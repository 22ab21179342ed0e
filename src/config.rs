//! The configuration records and the dispatch of a request to them.
use vstd::prelude::*;
use crate::addr::encode_addr;
use crate::octets::bytes_equal;
use crate::cidr::prefix_match;
use crate::text::{reads_as_ip, std_ip};
use vstd::utf8::encode_utf8;
use crate::cidr::{Cidr, CidrView};
use crate::proxy::{Network, ProxyError, RequestContext};

verus! {

/// The protocols that inbounds and outbounds speak.
#[derive(Clone, Copy, Debug, PartialEq, Eq, Structural)]
pub enum Protocol {
    Vmess,
    Vless,
    Trojan,
    Bepass,
    RelayV1,
    RelayV2,
    Blackhole,
    Freedom,
}

/// Where tunnels come in: the path of the WebSocket upgrade and the
/// credentials that the protocol checks.
#[derive(Debug)]
pub struct Inbound {
    pub protocol: Protocol,
    pub uuid: [u8; 16],
    pub password: String,
    pub path: String,
}

/// Where matched tunnels go.
#[derive(Debug)]
pub struct Outbound {
    /// The IP ranges whose TCP requests take this outbound.
    pub cidrs: Vec<Cidr>,
    pub protocol: Protocol,
    /// Upstream hosts, one of which is picked per connection.
    pub addresses: Vec<String>,
    pub port: u16,
    pub uuid: [u8; 16],
    pub password: String,
}

/// The inbounds, and the one configured outbound.
#[derive(Debug)]
pub struct Config {
    pub inbound: Vec<Inbound>,
    pub outbound: Outbound,
}

/// An inbound as plain values.
pub ghost struct InboundView {
    pub protocol: Protocol,
    pub uuid: Seq<u8>,
    pub password: Seq<char>,
    pub path: Seq<char>,
}

/// An outbound as plain values.
pub ghost struct OutboundView {
    pub cidrs: Seq<CidrView>,
    pub protocol: Protocol,
    pub addresses: Seq<Seq<char>>,
    pub port: u16,
    pub uuid: Seq<u8>,
    pub password: Seq<char>,
}

impl View for Inbound {
    type V = InboundView;

    open spec fn view(&self) -> InboundView {
        InboundView {
            protocol: self.protocol,
            uuid: self.uuid@,
            password: self.password@,
            path: self.path@,
        }
    }
}

impl View for Outbound {
    type V = OutboundView;

    open spec fn view(&self) -> OutboundView {
        OutboundView {
            cidrs: self.cidrs@.map_values(|c: Cidr| c@),
            protocol: self.protocol,
            addresses: self.addresses@.map_values(|a: String| a@),
            port: self.port,
            uuid: self.uuid@,
            password: self.password@,
        }
    }
}

impl Clone for Inbound {
    fn clone(&self) -> (r: Self)
        ensures
            r@ == self@,
    {
        Inbound {
            protocol: self.protocol,
            uuid: self.uuid,
            password: self.password.clone(),
            path: self.path.clone(),
        }
    }
}

impl Clone for Outbound {
    fn clone(&self) -> (r: Self)
        ensures
            r@ == self@,
    {
        let cidrs = self.cidrs.clone();
        assert(cidrs@.map_values(|c: Cidr| c@) =~= self.cidrs@.map_values(|c: Cidr| c@));
        let addresses = self.addresses.clone();
        assert(addresses@.map_values(|a: String| a@) =~= self.addresses@.map_values(
            |a: String| a@,
        ));
        Outbound {
            cidrs,
            protocol: self.protocol,
            addresses,
            port: self.port,
            uuid: self.uuid,
            password: self.password.clone(),
        }
    }
}

/// The configuration as plain values.
pub ghost struct ConfigView {
    pub inbound: Seq<InboundView>,
    pub outbound: OutboundView,
}

impl View for Config {
    type V = ConfigView;

    open spec fn view(&self) -> ConfigView {
        ConfigView {
            inbound: self.inbound@.map_values(|i: Inbound| i@),
            outbound: self.outbound@,
        }
    }
}

/// Every range of the configuration is well formed.
pub open spec fn cidrs_wf(cidrs: Seq<Cidr>) -> bool {
    forall|i: int| 0 <= i < cidrs.len() ==> (#[trigger] cidrs[i]).wf()
}

/// `ip` lies in one of the ranges.
pub open spec fn in_ranges(cidrs: Seq<CidrView>, ip: Seq<u8>) -> bool {
    exists|i: int| 0 <= i < cidrs.len() && prefix_match(cidrs[i].network, ip, #[trigger] cidrs[i].prefix)
}

/// Whether every range is well formed.
pub fn cidrs_ok(cidrs: &Vec<Cidr>) -> (r: bool)
    ensures
        r == cidrs_wf(cidrs@),
{
    let mut i: usize = 0;
    while i < cidrs.len()
        invariant
            i <= cidrs@.len(),
            forall|j: int| 0 <= j < i ==> (#[trigger] cidrs@[j]).wf(),
        decreases cidrs@.len() - i,
    {
        let c = &cidrs[i];
        if !((c.addr.len() == 4 && c.prefix <= 32) || (c.addr.len() == 16 && c.prefix <= 128)) {
            return false;
        }
        i = i + 1;
    }
    true
}

/// The outbound that the direct connection stands for: the protocol Freedom
/// with every other field empty.
pub open spec fn freedom_view() -> OutboundView {
    OutboundView {
        cidrs: Seq::empty(),
        protocol: Protocol::Freedom,
        addresses: Seq::empty(),
        port: 0,
        uuid: Seq::new(16, |i: int| 0u8),
        password: Seq::empty(),
    }
}

/// Builds the direct outbound.
pub fn freedom() -> (r: Outbound)
    ensures
        r@ == freedom_view(),
{
    let r = Outbound {
        cidrs: Vec::new(),
        protocol: Protocol::Freedom,
        addresses: Vec::new(),
        port: 0,
        uuid: [0u8; 16],
        password: String::new(),
    };
    assert(r@.cidrs =~= Seq::<CidrView>::empty());
    assert(r@.addresses =~= Seq::<Seq<char>>::empty());
    assert(r@.uuid =~= Seq::new(16, |i: int| 0u8));
    r
}

/// Where a request goes: UDP and TCP to an address in the ranges take the
/// configured outbound, the rest the direct connection. `ip` is what the
/// request's address reads as.
pub open spec fn route(out: OutboundView, network: Network, ip: Option<Seq<u8>>) -> OutboundView {
    if network == Network::Udp {
        out
    } else if ip matches Some(b) && in_ranges(out.cidrs, b) {
        out
    } else {
        freedom_view()
    }
}

impl Config {
    /// The first inbound whose path is `path`, if any.
    pub fn dispatch_inbound(&self, path: &str) -> (r: Option<Inbound>)
        ensures
            match r {
                Some(found) => exists|k: int|
                    0 <= k < self@.inbound.len() && self@.inbound[k].path == path@ && found@
                        == self@.inbound[k] && forall|j: int|
                        0 <= j < k ==> self@.inbound[j].path != path@,
                None => forall|k: int|
                    0 <= k < self@.inbound.len() ==> self@.inbound[k].path != path@,
            },
    {
        let mut i: usize = 0;
        while i < self.inbound.len()
            invariant
                i <= self.inbound@.len(),
                forall|j: int| 0 <= j < i ==> self@.inbound[j].path != path@,
            decreases self.inbound@.len() - i,
        {
            let candidate: &str = self.inbound[i].path.as_str();
            if bytes_equal(candidate.as_bytes(), path.as_bytes()) {
                proof {
                    vstd::utf8::encode_utf8_decode_utf8(candidate@);
                    vstd::utf8::encode_utf8_decode_utf8(path@);
                }
                assert(self@.inbound[i as int].path == path@);
                return Some(self.inbound[i].clone());
            }
            assert(self@.inbound[i as int].path != path@);
            i = i + 1;
        }
        None
    }

    /// The outbound for a request over `network` whose address reads as `ip`.
    pub fn route_for(&self, network: Network, ip: &Result<Vec<u8>, ProxyError>) -> (r: Outbound)
        requires
            cidrs_wf(self.outbound.cidrs@),
        ensures
            r@ == route(self@.outbound, network, ip_view(*ip)),
    {
        if network == Network::Udp {
            return self.outbound.clone();
        }
        match ip {
            Ok(a) => {
                let mut i: usize = 0;
                while i < self.outbound.cidrs.len()
                    invariant
                        i <= self.outbound.cidrs@.len(),
                        cidrs_wf(self.outbound.cidrs@),
                        network != Network::Udp,
                        ip_view(*ip) == Some(a@),
                        forall|j: int| 0 <= j < i ==> !prefix_match(self@.outbound.cidrs[j].network, a@, #[trigger] self@.outbound.cidrs[j].prefix),
                    decreases self.outbound.cidrs@.len() - i,
                {
                    assert(self@.outbound.cidrs[i as int] == self.outbound.cidrs@[i as int]@);
                    if self.outbound.cidrs[i].contains(a.as_slice()) {
                        assert(in_ranges(self@.outbound.cidrs, a@));
                        return self.outbound.clone();
                    }
                    i = i + 1;
                }
                assert(!in_ranges(self@.outbound.cidrs, a@));
                freedom()
            },
            Err(_) => freedom(),
        }
    }

    /// The outbound for a decoded request.
    pub fn dispatch_outbound(&self, context: &RequestContext) -> (r: Outbound)
        requires
            cidrs_wf(self.outbound.cidrs@),
        ensures
            context.network == Network::Udp ==> r@ == self@.outbound,
            r@ == route(self@.outbound, context.network, std_ip(encode_utf8(context.address@))),
    {
        let ip = encode_addr(context.address.as_str());
        let r = self.route_for(context.network, &ip);
        assert(reads_as_ip(encode_utf8(context.address@), ip_view(ip)));
        r
    }
}

/// What an address reads as, from the result of encoding it.
pub open spec fn ip_view(r: Result<Vec<u8>, ProxyError>) -> Option<Seq<u8>> {
    match r {
        Ok(v) => Some(v@),
        Err(_) => None,
    }
}

} // verus!
