//! VLESS: the plain request header, the request this proxy sends as a client,
//! and the reply prefix it strips.
use vstd::prelude::*;
use vstd::utf8::encode_utf8;
use crate::addr::{address_at, encode_addr, lemma_ip_text_chars, parse_address};
use crate::octets::{append_bytes, bytes_equal, copy_range};
use crate::proxy::{network_byte, network_of_byte, Header, HeaderView, Network, ProxyError, RequestContext};
use crate::text::{is_ip_text, reads_as_ip};

verus! {

/// The request at the start of `s` for the user `uuid`, and its length:
/// version 0, the user id, an addon length and the addons, the network
/// byte, the big-endian port, the address type and the address.
pub open spec fn decode_spec(s: Seq<u8>, uuid: Seq<u8>) -> Result<(HeaderView, int), ProxyError> {
    if s.len() < 1 {
        Err(ProxyError::Incomplete)
    } else if s[0] != 0 {
        Err(ProxyError::BadRequest)
    } else if s.len() < 18 {
        Err(ProxyError::Incomplete)
    } else if s.subrange(1, 17) != uuid {
        Err(ProxyError::Auth)
    } else {
        let pos = 18 + s[17] as int;
        if s.len() < pos + 1 {
            Err(ProxyError::Incomplete)
        } else {
            match network_of_byte(s[pos]) {
                None => Err(ProxyError::BadRequest),
                Some(network) => if s.len() < pos + 4 {
                    Err(ProxyError::Incomplete)
                } else if s[pos + 3] < 1 || s[pos + 3] > 3 {
                    Err(ProxyError::BadRequest)
                } else {
                    match address_at(s, s[pos + 3], pos + 4) {
                        None => Err(ProxyError::Incomplete),
                        Some(a) => Ok(
                            (
                                HeaderView {
                                    network,
                                    address: a.0,
                                    port: ((s[pos + 1] as int) * 256 + (s[pos + 2] as int)) as u16,
                                },
                                a.1,
                            ),
                        ),
                    }
                },
            }
        }
    }
}

/// Decodes the VLESS request at the start of `s` for the user `uuid`: the
/// header, and how many bytes of `s` it took. `Incomplete` says that more
/// bytes are needed.
pub fn decode_request_header(s: &[u8], uuid: &[u8; 16]) -> (r: Result<(Header, usize), ProxyError>)
    ensures
        match r {
            Ok((h, end)) => decode_spec(s@, uuid@) == Ok::<(HeaderView, int), ProxyError>((h@, end as int)),
            Err(e) => decode_spec(s@, uuid@) == Err::<(HeaderView, int), ProxyError>(e),
        },
{
    if s.len() < 1 {
        return Err(ProxyError::Incomplete);
    }
    if s[0] != 0 {
        return Err(ProxyError::BadRequest);
    }
    if s.len() < 18 {
        return Err(ProxyError::Incomplete);
    }
    let id = copy_range(s, 1, 17);
    if !bytes_equal(id.as_slice(), uuid.as_slice()) {
        return Err(ProxyError::Auth);
    }
    let pos: usize = 18 + s[17] as usize;
    if s.len() < pos + 1 {
        return Err(ProxyError::Incomplete);
    }
    let network = match Network::from_byte(s[pos]) {
        Ok(n) => n,
        Err(e) => {
            return Err(e);
        },
    };
    if s.len() < pos + 4 {
        return Err(ProxyError::Incomplete);
    }
    let atype = s[pos + 3];
    if atype < 1 || atype > 3 {
        return Err(ProxyError::BadRequest);
    }
    let port: u16 = (s[pos + 1] as u16) * 256 + (s[pos + 2] as u16);
    match parse_address(s, atype, pos + 4) {
        None => Err(ProxyError::Incomplete),
        Some((address, end)) => Ok((Header { network, address, port }, end)),
    }
}

/// The request that this proxy sends to a VLESS upstream: version 0, the
/// user id, no addons, the network byte, the big-endian port, then 1 and
/// four address bytes, or 2 and sixteen.
pub open spec fn request_bytes(uuid: Seq<u8>, network: Network, addr: Seq<u8>, port: u16) -> Seq<u8> {
    seq![0u8] + uuid + seq![0u8, network_byte(network), (port / 256) as u8, (port % 256) as u8] + seq![
        if addr.len() == 4 {
            1u8
        } else {
            2u8
        },
    ] + addr
}

/// Writes the request that this proxy sends to a VLESS upstream for `ctx`.
/// An address that is no IP is refused.
pub fn encode_request(ctx: &RequestContext, uuid: &[u8; 16]) -> (r: Result<Vec<u8>, ProxyError>)
    ensures
        match r {
            Ok(v) => exists|a: Seq<u8>|
                reads_as_ip(encode_utf8(ctx.address@), Some(a)) && v@ == request_bytes(
                    uuid@,
                    ctx.network,
                    a,
                    ctx.port,
                ),
            Err(e) => reads_as_ip(encode_utf8(ctx.address@), None) && e == ProxyError::Upstream,
        },
{
    let addr = match encode_addr(ctx.address.as_str()) {
        Ok(a) => a,
        Err(e) => {
            return Err(e);
        },
    };
    Ok(request_for(ctx, uuid, addr.as_slice()))
}

/// Writes the request for `ctx` with its address given as the bytes `addr`.
pub fn request_for(ctx: &RequestContext, uuid: &[u8; 16], addr: &[u8]) -> (r: Vec<u8>)
    ensures
        r@ == request_bytes(uuid@, ctx.network, addr@, ctx.port),
{
    let mut r: Vec<u8> = vec![0u8];
    append_bytes(&mut r, uuid.as_slice());
    r.push(0);
    r.push(ctx.network.to_byte());
    r.push((ctx.port / 256) as u8);
    r.push((ctx.port % 256) as u8);
    r.push(if addr.len() == 4 { 1u8 } else { 2u8 });
    append_bytes(&mut r, addr);
    assert(r@ =~= request_bytes(uuid@, ctx.network, addr@, ctx.port));
    r
}

/// Strips the two bytes (version and addon length) that a VLESS upstream
/// puts before its reply, once, however the reply is split into reads.
pub struct ReplyFilter {
    /// How many of the two bytes are still to be dropped.
    pub to_skip: usize,
}

impl ReplyFilter {
    /// At most the two reply bytes are left to drop.
    pub open spec fn wf(&self) -> bool {
        self.to_skip <= 2
    }

    /// A filter that has seen no reply yet.
    pub fn new() -> (r: ReplyFilter)
        ensures
            r.wf(),
            r.to_skip == 2,
    {
        ReplyFilter { to_skip: 2 }
    }

    /// The part of `data` that belongs to the tunnelled stream.
    pub fn filter(&mut self, data: &[u8]) -> (r: Vec<u8>)
        requires
            old(self).wf(),
        ensures
            final(self).wf(),
            ({
                let n = if data@.len() < old(self).to_skip { data@.len() as int } else { old(self).to_skip as int };
                &&& r@ == data@.skip(n)
                &&& final(self).to_skip == old(self).to_skip - n
            }),
    {
        let n = if data.len() < self.to_skip { data.len() } else { self.to_skip };
        self.to_skip = self.to_skip - n;
        let r = copy_range(data, n, data.len());
        assert(r@ =~= data@.skip(n as int));
        r
    }
}

/// Decoding the request that this proxy sends for an IPv4 destination gives
/// back the destination: its network, the text of its address, and its port.
pub proof fn lemma_request_round_trip(uuid: Seq<u8>, network: Network, address: Seq<char>, addr: Seq<u8>, port: u16)
    requires
        uuid.len() == 16,
        addr.len() == 4,
        is_ip_text(encode_utf8(address), addr),
    ensures
        decode_spec(request_bytes(uuid, network, addr, port), uuid) == Ok::<(HeaderView, int), ProxyError>(
            (HeaderView { network, address, port }, 26),
        ),
{
    let s = request_bytes(uuid, network, addr, port);
    lemma_ip_text_chars(address, addr);
    assert(s.subrange(1, 17) =~= uuid);
    assert(s.subrange(22, 26) =~= addr);
    assert(s[18] == network_byte(network));
    assert((((port / 256) as u8) as int) * 256 + (((port % 256) as u8) as int) == port);
}

} // verus!
