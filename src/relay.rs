//! The relay protocols: the header that tells a trusted relay where to go.
use vstd::prelude::*;
use vstd::utf8::encode_utf8;
use crate::addr::encode_addr;
use crate::octets::{append_bytes, array16, array4};
use crate::proxy::{network_name, Network, ProxyError, RequestContext, RequestView};
use crate::text::{dec_digits, push_decimal, reads_as_ip};

verus! {

/// Which relay header to send.
#[derive(Clone, Copy, Debug, PartialEq, Eq, Structural)]
pub enum RelayVersion {
    V1,
    V2,
}

/// bincode's variable-length form of a 16-bit integer in its standard
/// configuration: one byte below 251, else 251 and the value in two
/// little-endian bytes.
pub open spec fn varint_u16(v: u16) -> Seq<u8> {
    if v <= 250 {
        seq![v as u8]
    } else {
        seq![251u8, (v % 256) as u8, (v / 256) as u8]
    }
}

/// bincode's variable-length form of a 32-bit integer in its standard
/// configuration: one byte below 251, else 251 and two little-endian bytes
/// up to 65535, else 252 and four little-endian bytes.
pub open spec fn varint_u32(v: u32) -> Seq<u8> {
    if v <= 250 {
        seq![v as u8]
    } else if v <= 65535 {
        seq![251u8, (v % 256) as u8, (v / 256) as u8]
    } else {
        seq![252u8, (v % 256) as u8, ((v / 256) % 256) as u8, ((v / 65536) % 256) as u8, (v / 16777216) as u8]
    }
}

/// Relies on bincode::encode_to_vec with config::standard(): a tuple is
/// written field by field, a u32 and a u16 in the variable-length form, a
/// byte array as its bytes alone, and writing to a vector cannot fail.
#[verifier::external_body]
fn bincode_record<const N: usize>(version: u32, network: u32, family: u32, addr: [u8; N], port: u16) -> (r: Vec<u8>)
    ensures
        r@ == varint_u32(version) + varint_u32(network) + varint_u32(family) + addr@ + varint_u16(port),
{
    bincode::encode_to_vec((version, network, family, addr, port), bincode::config::standard()).unwrap()
}

/// The V1 header: `{net}@{addr}${port}` and CRLF, in ASCII.
pub open spec fn v1_header(ctx: RequestView) -> Seq<u8> {
    network_name(ctx.network) + seq![64u8] + encode_utf8(ctx.address) + seq![36u8] + dec_digits(
        ctx.port as nat,
    ) + seq![13u8, 10u8]
}

/// The V2 record of a destination, as bincode writes the record (version,
/// network, address, port) with each enum as its variant number: the
/// version (1 for V2), the network (0 TCP, 1 UDP), the address family
/// (0 IPv4, 1 IPv6) followed by the address bytes, and the port.
pub open spec fn v2_record(network: Network, addr: Seq<u8>, port: u16) -> Seq<u8> {
    varint_u32(1) + varint_u32(
        if network == Network::Tcp {
            0
        } else {
            1
        },
    ) + varint_u32(
        if addr.len() == 4 {
            0
        } else {
            1
        },
    ) + addr + varint_u16(port)
}

/// The V2 header: the record's length as two big-endian bytes, then the record.
pub open spec fn v2_header(network: Network, addr: Seq<u8>, port: u16) -> Seq<u8> {
    let rec = v2_record(network, addr, port);
    seq![(rec.len() / 256) as u8, (rec.len() % 256) as u8] + rec
}

/// Writes the V1 header for `ctx`.
pub fn process_v1(ctx: &RequestContext) -> (r: Vec<u8>)
    ensures
        r@ == v1_header(ctx@),
{
    let mut r = ctx.network.name();
    r.push(64);
    append_bytes(&mut r, ctx.address.as_str().as_bytes());
    r.push(36);
    push_decimal(&mut r, ctx.port);
    r.push(13);
    r.push(10);
    assert(r@ =~= v1_header(ctx@));
    r
}

/// Writes the V2 header for `ctx`; an address that is no IP is refused.
pub fn process_v2(ctx: &RequestContext) -> (r: Result<Vec<u8>, ProxyError>)
    ensures
        match r {
            Ok(v) => exists|a: Seq<u8>|
                reads_as_ip(encode_utf8(ctx.address@), Some(a)) && v@ == v2_header(ctx.network, a, ctx.port),
            Err(e) => reads_as_ip(encode_utf8(ctx.address@), None) && e == ProxyError::Upstream,
        },
{
    let addr = match encode_addr(ctx.address.as_str()) {
        Ok(a) => a,
        Err(e) => {
            return Err(e);
        },
    };
    Ok(header_v2_for(ctx.network, addr.as_slice(), ctx.port))
}

/// Writes the V2 header for a destination given as address bytes.
pub fn header_v2_for(network: Network, addr: &[u8], port: u16) -> (r: Vec<u8>)
    requires
        addr@.len() == 4 || addr@.len() == 16,
    ensures
        r@ == v2_header(network, addr@, port),
{
    let net: u32 = if network == Network::Tcp { 0 } else { 1 };
    let rec = if addr.len() == 4 {
        bincode_record(1, net, 0, array4(addr, 0), port)
    } else {
        bincode_record(1, net, 1, array16(addr, 0), port)
    };
    assert(addr@.subrange(0, addr@.len() as int) =~= addr@);
    assert(rec@ =~= v2_record(network, addr@, port));
    let n = rec.len();
    let mut r: Vec<u8> = vec![(n / 256) as u8, (n % 256) as u8];
    append_bytes(&mut r, rec.as_slice());
    assert(r@ =~= v2_header(network, addr@, port));
    r
}

/// What the relay outbound needs: the request it relays and the header
/// version it speaks.
pub struct RelayStream {
    pub context: RequestContext,
    pub version: RelayVersion,
}

impl RelayStream {
    /// The relay outbound for `context`, speaking `version`.
    pub fn new(context: RequestContext, version: RelayVersion) -> (r: RelayStream)
        ensures
            r.context@ == context@,
            r.version == version,
    {
        RelayStream { context, version }
    }

    /// The header to send before any payload.
    pub fn process(&self) -> (r: Result<Vec<u8>, ProxyError>)
        ensures
            self.version == RelayVersion::V1 ==> (r matches Ok(v) && v@ == v1_header(self.context@)),
            self.version == RelayVersion::V2 ==> match r {
                Ok(v) => exists|a: Seq<u8>|
                    reads_as_ip(encode_utf8(self.context.address@), Some(a)) && v@ == v2_header(
                        self.context.network,
                        a,
                        self.context.port,
                    ),
                Err(e) => reads_as_ip(encode_utf8(self.context.address@), None) && e == ProxyError::Upstream,
            },
    {
        match self.version {
            RelayVersion::V1 => Ok(process_v1(&self.context)),
            RelayVersion::V2 => process_v2(&self.context),
        }
    }
}

} // verus!
