//! What every protocol shares: the network of a request, the logical request
//! being tunnelled, and the errors that end a connection.
use vstd::prelude::*;
use crate::config::{Inbound, InboundView};

verus! {

/// The transport that a tunnelled request asks for.
#[derive(Clone, Copy, Debug, PartialEq, Eq, Structural)]
pub enum Network {
    Tcp,
    Udp,
}

/// Why a connection is given up.
#[derive(Clone, Copy, Debug, PartialEq, Eq, Structural)]
pub enum ProxyError {
    /// The bytes at hand end before the header does.
    Incomplete,
    /// A malformed header: a wrong version, an unknown type byte, a bad CRLF.
    BadRequest,
    /// A user id, a password hash or an AEAD tag that does not match.
    Auth,
    /// An upstream that cannot be reached, or an address that must be an IP and is not.
    Upstream,
    /// A failed read or write on either side.
    Transport,
}

/// The wire byte of a network in VMess and VLESS headers.
pub open spec fn network_byte(n: Network) -> u8 {
    match n {
        Network::Tcp => 1,
        Network::Udp => 2,
    }
}

/// The network that a VMess or VLESS network byte names.
pub open spec fn network_of_byte(b: u8) -> Option<Network> {
    if b == 1 {
        Some(Network::Tcp)
    } else if b == 2 {
        Some(Network::Udp)
    } else {
        None
    }
}

/// The ASCII name of a network: `tcp` or `udp`.
pub open spec fn network_name(n: Network) -> Seq<u8> {
    match n {
        Network::Tcp => seq![116u8, 99, 112],
        Network::Udp => seq![117u8, 100, 112],
    }
}

impl Network {
    /// The network named by a VMess or VLESS network byte.
    pub fn from_byte(b: u8) -> (r: Result<Network, ProxyError>)
        ensures
            match network_of_byte(b) {
                Some(n) => r == Ok::<Network, ProxyError>(n),
                None => r == Err::<Network, ProxyError>(ProxyError::BadRequest),
            },
    {
        if b == 1 {
            Ok(Network::Tcp)
        } else if b == 2 {
            Ok(Network::Udp)
        } else {
            Err(ProxyError::BadRequest)
        }
    }

    /// The VMess and VLESS network byte of this network.
    pub fn to_byte(&self) -> (r: u8)
        ensures
            r == network_byte(*self),
    {
        match self {
            Network::Tcp => 1,
            Network::Udp => 2,
        }
    }

    /// The network named `tcp` or `udp`.
    pub fn from_name(s: &[u8]) -> (r: Result<Network, ProxyError>)
        ensures
            r == (if s@ == network_name(Network::Tcp) {
                Ok::<Network, ProxyError>(Network::Tcp)
            } else if s@ == network_name(Network::Udp) {
                Ok::<Network, ProxyError>(Network::Udp)
            } else {
                Err::<Network, ProxyError>(ProxyError::BadRequest)
            }),
    {
        if s.len() == 3 && s[0] == 116 && s[1] == 99 && s[2] == 112 {
            assert(s@ =~= network_name(Network::Tcp));
            Ok(Network::Tcp)
        } else if s.len() == 3 && s[0] == 117 && s[1] == 100 && s[2] == 112 {
            assert(s@ =~= network_name(Network::Udp));
            Ok(Network::Udp)
        } else {
            assert(s@ != network_name(Network::Tcp));
            assert(s@ != network_name(Network::Udp));
            Err(ProxyError::BadRequest)
        }
    }

    /// The name of this network: `tcp` or `udp`.
    pub fn name(&self) -> (r: Vec<u8>)
        ensures
            r@ == network_name(*self),
    {
        let r: Vec<u8> = match self {
            Network::Tcp => vec![116u8, 99, 112],
            Network::Udp => vec![117u8, 100, 112],
        };
        assert(r@ =~= network_name(*self));
        r
    }
}

/// The logical request being tunnelled: where to, over which network, and
/// through which inbound it arrived.
#[derive(Debug)]
pub struct RequestContext {
    pub address: String,
    pub port: u16,
    pub network: Network,
    pub inbound: Inbound,
}

/// A decoded request header, as plain values.
pub ghost struct HeaderView {
    pub network: Network,
    pub address: Seq<char>,
    pub port: u16,
}

/// The destination that a VLESS, Trojan or Bepass request header names.
pub struct Header {
    pub network: Network,
    pub address: String,
    pub port: u16,
}

impl View for Header {
    type V = HeaderView;

    open spec fn view(&self) -> HeaderView {
        HeaderView { network: self.network, address: self.address@, port: self.port }
    }
}

/// A request as plain values.
pub ghost struct RequestView {
    pub address: Seq<char>,
    pub port: u16,
    pub network: Network,
    pub inbound: InboundView,
}

impl View for RequestContext {
    type V = RequestView;

    open spec fn view(&self) -> RequestView {
        RequestView {
            address: self.address@,
            port: self.port,
            network: self.network,
            inbound: self.inbound@,
        }
    }
}

impl Clone for RequestContext {
    fn clone(&self) -> (r: Self)
        ensures
            r@ == self@,
    {
        RequestContext {
            address: self.address.clone(),
            port: self.port,
            network: self.network,
            inbound: self.inbound.clone(),
        }
    }
}

} // verus!
