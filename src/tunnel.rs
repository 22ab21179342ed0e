//! The decisions of a tunnel: decode the request, pick the outbound and the
//! upstream, and say which bytes go out before the payload.
use vstd::prelude::*;
use vstd::utf8::encode_utf8;
use crate::bepass;
use crate::addr::encode_addr;
use crate::config::{cidrs_wf, ip_view, route, Config, Outbound, OutboundView, Protocol};
use crate::proxy::{HeaderView, ProxyError, RequestContext, RequestView};
use crate::pump::{lemma_pump_delivers, Pump};
use crate::relay;
use crate::text::{reads_as_ip, std_ip};
use crate::trojan;
use crate::vless;
use crate::vmess;

verus! {

/// Relies on fastrand::usize: a number in `0..n`, drawn at random; it panics
/// on an empty range, which `n > 0` rules out.
#[verifier::external_body]
fn random_index(n: usize) -> (r: usize)
    requires
        n > 0,
    ensures
        r < n,
{
    fastrand::usize(..n)
}

/// The request of `ctx` with the destination of a decoded header.
pub open spec fn with_destination(ctx: RequestView, h: HeaderView) -> RequestView {
    RequestView { address: h.address, port: h.port, network: h.network, inbound: ctx.inbound }
}

/// The two VMess response frames, one after the other.
pub open spec fn vmess_preamble(h: vmess::HeaderView) -> Seq<u8> {
    let frames = vmess::response_spec(h.key, h.iv, h.response_header);
    frames.0 + frames.1
}

/// What decoding the request of an inbound gives: the filled request, how
/// many bytes of `data` the header took, and the bytes to answer with before
/// any payload (the VMess response frames; two zero bytes for VLESS; none
/// for Trojan and Bepass). Bepass takes its destination from the query and
/// no bytes of `data`.
pub open spec fn decoded(ctx: RequestView, data: Seq<u8>, query: Seq<(Seq<u8>, Seq<u8>)>) -> Result<(RequestView, int, Seq<u8>), ProxyError> {
    let inbound = ctx.inbound;
    match inbound.protocol {
        Protocol::Vmess => match vmess::decode_spec(data, inbound.uuid) {
            Ok((h, end)) => Ok(
                (
                    RequestView { address: h.address, port: h.port, network: h.network, inbound },
                    end,
                    vmess_preamble(h),
                ),
            ),
            Err(e) => Err(e),
        },
        Protocol::Vless => match vless::decode_spec(data, inbound.uuid) {
            Ok((h, end)) => Ok((with_destination(ctx, h), end, seq![0u8, 0u8])),
            Err(e) => Err(e),
        },
        Protocol::Trojan => match trojan::decode_spec(data, trojan::password_digest(encode_utf8(inbound.password))) {
            Ok((h, end)) => Ok((with_destination(ctx, h), end, Seq::empty())),
            Err(e) => Err(e),
        },
        Protocol::Bepass => match bepass::decode_spec(query) {
            Ok(h) => Ok((with_destination(ctx, h), 0, Seq::empty())),
            Err(e) => Err(e),
        },
        _ => Err(ProxyError::BadRequest),
    }
}

/// Decodes the request that arrived on the inbound of `context`: its header
/// from `data`, or for Bepass from the query pairs of the upgrade request.
pub fn decode_request(context: &RequestContext, data: &[u8], query: &Vec<(Vec<u8>, Vec<u8>)>) -> (r: Result<(RequestContext, usize, Vec<u8>), ProxyError>)
    ensures
        match r {
            Ok((c, end, pre)) => decoded(context@, data@, bepass::pairs_view(query@)) == Ok::<(RequestView, int, Seq<u8>), ProxyError>((c@, end as int, pre@)),
            Err(e) => decoded(context@, data@, bepass::pairs_view(query@)) == Err::<(RequestView, int, Seq<u8>), ProxyError>(e),
        },
{
    match context.inbound.protocol {
        Protocol::Vmess => match vmess::decode_request_header(data, &context.inbound.uuid) {
            Ok((h, end)) => {
                let frames = match vmess::encode_response_header(&h.key, &h.iv, h.response_header) {
                    Ok(f) => f,
                    Err(e) => {
                        return Err(e);
                    },
                };
                let mut pre = frames.length;
                crate::octets::append_bytes(&mut pre, frames.payload.as_slice());
                let c = RequestContext { address: h.address, port: h.port, network: h.network, inbound: context.inbound.clone() };
                Ok((c, end, pre))
            },
            Err(e) => Err(e),
        },
        Protocol::Vless => match vless::decode_request_header(data, &context.inbound.uuid) {
            Ok((h, end)) => {
                let c = RequestContext { address: h.address, port: h.port, network: h.network, inbound: context.inbound.clone() };
                let pre: Vec<u8> = vec![0u8, 0u8];
                assert(pre@ =~= seq![0u8, 0u8]);
                Ok((c, end, pre))
            },
            Err(e) => Err(e),
        },
        Protocol::Trojan => match trojan::decode_request_header(data, context.inbound.password.as_str()) {
            Ok((h, end)) => {
                let c = RequestContext { address: h.address, port: h.port, network: h.network, inbound: context.inbound.clone() };
                let pre: Vec<u8> = Vec::new();
                assert(pre@ =~= Seq::<u8>::empty());
                Ok((c, end, pre))
            },
            Err(e) => Err(e),
        },
        Protocol::Bepass => match bepass::decode_request_header(query) {
            Ok(h) => {
                let c = RequestContext { address: h.address, port: h.port, network: h.network, inbound: context.inbound.clone() };
                let pre: Vec<u8> = Vec::new();
                assert(pre@ =~= Seq::<u8>::empty());
                Ok((c, 0, pre))
            },
            Err(e) => Err(e),
        },
        _ => Err(ProxyError::BadRequest),
    }
}

/// What the outbound sends before any payload: the VLESS or Trojan request,
/// the relay header, and nothing for the others. Where the protocol needs
/// the destination as an IP, `ip` is what its address reads as.
pub open spec fn handshake(ctx: RequestView, ob: OutboundView, ip: Option<Seq<u8>>) -> Result<Seq<u8>, ProxyError> {
    match ob.protocol {
        Protocol::RelayV1 => Ok(relay::v1_header(ctx)),
        Protocol::Vless => match ip {
            Some(a) => Ok(vless::request_bytes(ob.uuid, ctx.network, a, ctx.port)),
            None => Err(ProxyError::Upstream),
        },
        Protocol::Trojan => match ip {
            Some(a) => Ok(trojan::request_bytes(trojan::password_digest(encode_utf8(ob.password)), ctx.network, a, ctx.port)),
            None => Err(ProxyError::Upstream),
        },
        Protocol::RelayV2 => match ip {
            Some(a) => Ok(relay::v2_header(ctx.network, a, ctx.port)),
            None => Err(ProxyError::Upstream),
        },
        _ => Ok(Seq::empty()),
    }
}

/// The outbound's handshake bytes for the request `ctx`, whose address
/// reads as `ip`.
pub fn handshake_for(ctx: &RequestContext, outbound: &Outbound, ip: &Result<Vec<u8>, ProxyError>) -> (r: Result<Vec<u8>, ProxyError>)
    requires
        ip matches Ok(a) ==> a@.len() == 4 || a@.len() == 16,
    ensures
        match r {
            Ok(v) => handshake(ctx@, outbound@, ip_view(*ip)) == Ok::<Seq<u8>, ProxyError>(v@),
            Err(e) => handshake(ctx@, outbound@, ip_view(*ip)) == Err::<Seq<u8>, ProxyError>(e),
        },
{
    match outbound.protocol {
        Protocol::RelayV1 => Ok(relay::process_v1(ctx)),
        Protocol::RelayV2 => match ip {
            Ok(a) => Ok(relay::header_v2_for(ctx.network, a.as_slice(), ctx.port)),
            Err(_) => Err(ProxyError::Upstream),
        },
        Protocol::Vless => match ip {
            Ok(a) => Ok(vless::request_for(ctx, &outbound.uuid, a.as_slice())),
            Err(_) => Err(ProxyError::Upstream),
        },
        Protocol::Trojan => match ip {
            Ok(a) => Ok(trojan::request_for(ctx, outbound.password.as_str(), a.as_slice())),
            Err(_) => Err(ProxyError::Upstream),
        },
        _ => {
            let v: Vec<u8> = Vec::new();
            assert(v@ =~= Seq::<u8>::empty());
            Ok(v)
        },
    }
}

/// The outbound's handshake bytes for the request `ctx`.
pub fn outbound_handshake(ctx: &RequestContext, outbound: &Outbound) -> (r: Result<Vec<u8>, ProxyError>)
    ensures
        match r {
            Ok(v) => handshake(ctx@, outbound@, std_ip(encode_utf8(ctx.address@))) == Ok::<Seq<u8>, ProxyError>(v@),
            Err(e) => handshake(ctx@, outbound@, std_ip(encode_utf8(ctx.address@))) == Err::<Seq<u8>, ProxyError>(e),
        },
{
    let ip = encode_addr(ctx.address.as_str());
    let r = handshake_for(ctx, outbound, &ip);
    assert(reads_as_ip(encode_utf8(ctx.address@), ip_view(ip)));
    r
}

/// The upstream to connect to: the request's own destination for the direct
/// outbound; else the configured port, and the address at `pick` among the
/// configured ones, or the request's address where none is configured.
pub open spec fn upstream(ctx: RequestView, ob: OutboundView, pick: int) -> (Seq<char>, u16) {
    if ob.protocol == Protocol::Freedom {
        (ctx.address, ctx.port)
    } else if ob.addresses.len() > 0 {
        (ob.addresses[pick], ob.port)
    } else {
        (ctx.address, ob.port)
    }
}

/// The upstream for `ctx` through `outbound`, with `pick` choosing among the
/// configured addresses.
pub fn upstream_target(ctx: &RequestContext, outbound: &Outbound, pick: usize) -> (r: (String, u16))
    requires
        outbound.addresses@.len() > 0 ==> pick < outbound.addresses@.len(),
    ensures
        (r.0@, r.1) == upstream(ctx@, outbound@, pick as int),
{
    if outbound.protocol == Protocol::Freedom {
        (ctx.address.clone(), ctx.port)
    } else if outbound.addresses.len() > 0 {
        assert(outbound@.addresses[pick as int] == outbound.addresses@[pick as int]@);
        (outbound.addresses[pick].clone(), outbound.port)
    } else {
        (ctx.address.clone(), outbound.port)
    }
}

/// The upstream for `ctx` through `outbound`, one of the configured
/// addresses picked at random.
pub fn connect_target(ctx: &RequestContext, outbound: &Outbound) -> (r: (String, u16))
    ensures
        exists|pick: int|
            (outbound@.addresses.len() > 0 ==> 0 <= pick < outbound@.addresses.len()) && (r.0@, r.1)
                == upstream(ctx@, outbound@, pick),
{
    let n = outbound.addresses.len();
    let pick = if n > 0 { random_index(n) } else { 0 };
    upstream_target(ctx, outbound, pick)
}

/// Everything the tunnel does before the payload flows: the filled request,
/// the outbound and upstream it goes to, the handshake to send upstream, the
/// bytes to answer the client with, and how many bytes of the data were the
/// header (the rest is payload).
pub struct Plan {
    pub context: RequestContext,
    pub outbound: Outbound,
    pub address: String,
    pub port: u16,
    pub handshake: Vec<u8>,
    pub preamble: Vec<u8>,
    pub consumed: usize,
}

impl Plan {
    /// The pump for this tunnel: it owes the client the preamble.
    pub fn pump(&self) -> (r: Pump)
        ensures
            r.wf(),
            r.preamble@ == self.preamble@,
            !r.preamble_sent,
            r.from_client@ == Seq::<u8>::empty(),
            r.to_upstream@ == Seq::<u8>::empty(),
    {
        Pump::new(self.preamble.clone())
    }
}

/// Once a tunnel whose request decoded is pumping, with the pump made for
/// its plan, the upstream has received exactly the client's payload and the
/// client exactly the inbound's preamble (the VMess response frames, two
/// zero bytes for VLESS, nothing for Trojan and Bepass) followed by the
/// upstream's bytes.
pub proof fn lemma_tunnel_delivers(ctx: RequestView, data: Seq<u8>, query: Seq<(Seq<u8>, Seq<u8>)>, p: Pump)
    requires
        decoded(ctx, data, query) is Ok,
        p.preamble@ == decoded(ctx, data, query).unwrap().2,
        p.wf(),
        p.preamble_sent,
    ensures
        p.to_upstream@ == p.from_client@,
        p.to_client@ == decoded(ctx, data, query).unwrap().2 + p.from_upstream@,
{
    lemma_pump_delivers(p);
}

/// Plans the tunnel for the request on the inbound of `context`, whose
/// first bytes are `data` (and, for Bepass, whose upgrade query is `query`).
/// `Incomplete` says that more bytes are needed; every other error closes
/// the connection.
#[verifier::rlimit(80)]
pub fn process(config: &Config, context: &RequestContext, data: &[u8], query: &Vec<(Vec<u8>, Vec<u8>)>) -> (r: Result<Plan, ProxyError>)
    requires
        cidrs_wf(config.outbound.cidrs@),
    ensures
        match decoded(context@, data@, bepass::pairs_view(query@)) {
            Err(e) => r == Err::<Plan, ProxyError>(e),
            Ok((c, end, pre)) => {
                let ip = std_ip(encode_utf8(c.address));
                match r {
                    Ok(p) => {
                        &&& p.context@ == c
                        &&& p.consumed == end
                        &&& p.preamble@ == pre
                        &&& p.outbound@ == route(config@.outbound, c.network, ip)
                        &&& handshake(c, p.outbound@, ip) == Ok::<Seq<u8>, ProxyError>(p.handshake@)
                        &&& exists|pick: int|
                            (p.outbound@.addresses.len() > 0 ==> 0 <= pick < p.outbound@.addresses.len())
                                && (p.address@, p.port) == upstream(c, p.outbound@, pick)
                    },
                    Err(e) => handshake(c, route(config@.outbound, c.network, ip), ip) == Err::<Seq<u8>, ProxyError>(e),
                }
            },
        },
{
    let (ctx, consumed, preamble) = match decode_request(context, data, query) {
        Ok(d) => d,
        Err(e) => {
            return Err(e);
        },
    };
    let ip = encode_addr(ctx.address.as_str());
    let outbound = config.route_for(ctx.network, &ip);
    assert(reads_as_ip(encode_utf8(ctx.address@), ip_view(ip)));
    let handshake = match handshake_for(&ctx, &outbound, &ip) {
        Ok(h) => h,
        Err(e) => {
            assert(outbound@ == route(config@.outbound, ctx@.network, ip_view(ip)));
            assert(handshake(ctx@, route(config@.outbound, ctx@.network, ip_view(ip)), ip_view(ip)) == Err::<Seq<u8>, ProxyError>(e));
            return Err(e);
        },
    };
    let (address, port) = connect_target(&ctx, &outbound);
    Ok(Plan { context: ctx, outbound, address, port, handshake, preamble, consumed })
}

} // verus!
