//! Trojan: password authentication by SHA-224 digest and a SOCKS-like
//! request, read as a server and written as a client.
use vstd::prelude::*;
use vstd::utf8::encode_utf8;
use vstd::string::StringSliceAdditionalSpecFns;
use crate::addr::{domain_at, encode_addr, ipv4_at, ipv6_at, parse_domain, parse_ipv4, parse_ipv6};
use crate::octets::{append_bytes, bytes_equal, copy_range};
use crate::crypto::{sha224, sha224_of};
use crate::proxy::{Header, HeaderView, Network, ProxyError, RequestContext};
use crate::text::{hex_digit, reads_as_ip};

verus! {

/// Two lowercase hexadecimal digits per byte.
pub open spec fn hex_of(b: Seq<u8>) -> Seq<u8>
    decreases b.len(),
{
    if b.len() == 0 {
        Seq::empty()
    } else {
        hex_of(b.drop_last()) + seq![hex_digit((b.last() / 16) as nat), hex_digit((b.last() % 16) as nat)]
    }
}

/// The 56 bytes that authenticate `password`: the hexadecimal SHA-224 digest.
pub open spec fn password_digest(password: Seq<u8>) -> Seq<u8> {
    hex_of(sha224_of(password))
}

fn hex_digit_of(d: u8) -> (r: u8)
    requires
        d < 16,
    ensures
        r == hex_digit(d as nat),
{
    if d < 10 {
        48 + d
    } else {
        87 + d
    }
}

/// The lowercase hexadecimal text of `b`.
pub fn hex(b: &[u8]) -> (r: Vec<u8>)
    ensures
        r@ == hex_of(b@),
        r@.len() == 2 * b@.len(),
{
    let mut r: Vec<u8> = Vec::new();
    let mut i: usize = 0;
    while i < b.len()
        invariant
            i <= b@.len(),
            r@ == hex_of(b@.take(i as int)),
            r@.len() == 2 * i,
        decreases b@.len() - i,
    {
        r.push(hex_digit_of(b[i] / 16));
        r.push(hex_digit_of(b[i] % 16));
        assert(b@.take(i + 1).drop_last() =~= b@.take(i as int));
        i = i + 1;
        assert(r@ =~= hex_of(b@.take(i as int)));
    }
    assert(b@.take(i as int) =~= b@);
    r
}

/// The authentication bytes of `password`.
pub fn digest_password(password: &str) -> (r: Vec<u8>)
    ensures
        r@ == password_digest(password.spec_bytes()),
        r@.len() == 56,
{
    let d = sha224(password.as_bytes());
    hex(d.as_slice())
}

/// The address of Trojan type `atype` at `pos`: 1 is IPv4, 3 a domain, 4 IPv6.
pub open spec fn address_at(p: Seq<u8>, atype: u8, pos: int) -> Option<(Seq<char>, int)> {
    if atype == 1 {
        ipv4_at(p, pos)
    } else if atype == 3 {
        domain_at(p, pos)
    } else if atype == 4 {
        ipv6_at(p, pos)
    } else {
        None
    }
}

/// `s` holds CR LF at `pos`.
pub open spec fn crlf_at(s: Seq<u8>, pos: int) -> bool {
    s[pos] == 13 && s[pos + 1] == 10
}

/// The request at the start of `s` for the password whose authentication
/// bytes are `digest`, and its length: the digest, CRLF, the command (1 TCP,
/// 3 UDP), the address type and address, the big-endian port, for UDP two
/// length bytes, and CRLF.
pub open spec fn decode_spec(s: Seq<u8>, digest: Seq<u8>) -> Result<(HeaderView, int), ProxyError> {
    if s.len() < 56 {
        Err(ProxyError::Incomplete)
    } else if s.subrange(0, 56) != digest {
        Err(ProxyError::Auth)
    } else if s.len() < 60 {
        Err(ProxyError::Incomplete)
    } else if !crlf_at(s, 56) || (s[58] != 1 && s[58] != 3) || (s[59] != 1 && s[59] != 3 && s[59] != 4) {
        Err(ProxyError::BadRequest)
    } else {
        let network = if s[58] == 1 { Network::Tcp } else { Network::Udp };
        match address_at(s, s[59], 60) {
            None => Err(ProxyError::Incomplete),
            Some(a) => {
                let p = a.1;
                let end = if network == Network::Udp { p + 6 } else { p + 4 };
                if s.len() < end {
                    Err(ProxyError::Incomplete)
                } else if !crlf_at(s, end - 2) {
                    Err(ProxyError::BadRequest)
                } else {
                    Ok((HeaderView { network, address: a.0, port: ((s[p] as int) * 256 + (s[p + 1] as int)) as u16 }, end))
                }
            },
        }
    }
}

/// Decodes the Trojan request at the start of `s` for `password`: the
/// header, and how many bytes of `s` it took. `Incomplete` says that more
/// bytes are needed.
pub fn decode_request_header(s: &[u8], password: &str) -> (r: Result<(Header, usize), ProxyError>)
    ensures
        match r {
            Ok((h, end)) => decode_spec(s@, password_digest(password.spec_bytes())) == Ok::<(HeaderView, int), ProxyError>((h@, end as int)),
            Err(e) => decode_spec(s@, password_digest(password.spec_bytes())) == Err::<(HeaderView, int), ProxyError>(e),
        },
{
    let digest = digest_password(password);
    if s.len() < 56 {
        return Err(ProxyError::Incomplete);
    }
    let given = copy_range(s, 0, 56);
    if !bytes_equal(given.as_slice(), digest.as_slice()) {
        return Err(ProxyError::Auth);
    }
    if s.len() < 60 {
        return Err(ProxyError::Incomplete);
    }
    if !(s[56] == 13 && s[57] == 10) || (s[58] != 1 && s[58] != 3) || (s[59] != 1 && s[59] != 3 && s[59] != 4) {
        return Err(ProxyError::BadRequest);
    }
    let network = if s[58] == 1 { Network::Tcp } else { Network::Udp };
    let atype = s[59];
    let read = if atype == 1 {
        parse_ipv4(s, 60)
    } else if atype == 3 {
        parse_domain(s, 60)
    } else {
        parse_ipv6(s, 60)
    };
    let (address, p) = match read {
        Some(a) => a,
        None => {
            return Err(ProxyError::Incomplete);
        },
    };
    let tail: usize = if network == Network::Udp { 6 } else { 4 };
    if s.len() < p || s.len() - p < tail {
        return Err(ProxyError::Incomplete);
    }
    let end = p + tail;
    if !(s[end - 2] == 13 && s[end - 1] == 10) {
        return Err(ProxyError::BadRequest);
    }
    let port: u16 = (s[p] as u16) * 256 + (s[p + 1] as u16);
    Ok((Header { network, address, port }, end))
}

/// The request that this proxy sends to a Trojan upstream: the password's
/// authentication bytes, CRLF, the command (1 TCP, 3 UDP), then 1 and four
/// address bytes or 4 and sixteen, the big-endian port, and CRLF.
pub open spec fn request_bytes(digest: Seq<u8>, network: Network, addr: Seq<u8>, port: u16) -> Seq<u8> {
    digest + seq![13u8, 10u8, if network == Network::Tcp { 1u8 } else { 3u8 }, if addr.len() == 4 { 1u8 } else { 4u8 }]
        + addr + seq![(port / 256) as u8, (port % 256) as u8, 13u8, 10u8]
}

/// Writes the request that this proxy sends to a Trojan upstream for `ctx`.
/// An address that is no IP is refused.
pub fn encode_request(ctx: &RequestContext, password: &str) -> (r: Result<Vec<u8>, ProxyError>)
    ensures
        match r {
            Ok(v) => exists|a: Seq<u8>|
                reads_as_ip(encode_utf8(ctx.address@), Some(a)) && v@ == request_bytes(
                    password_digest(password.spec_bytes()),
                    ctx.network,
                    a,
                    ctx.port,
                ),
            Err(e) => reads_as_ip(encode_utf8(ctx.address@), None) && e == ProxyError::Upstream,
        },
{
    let addr = match encode_addr(ctx.address.as_str()) {
        Ok(a) => a,
        Err(e) => {
            return Err(e);
        },
    };
    Ok(request_for(ctx, password, addr.as_slice()))
}

/// Writes the request for `ctx` with its address given as the bytes `addr`.
pub fn request_for(ctx: &RequestContext, password: &str, addr: &[u8]) -> (r: Vec<u8>)
    ensures
        r@ == request_bytes(password_digest(password.spec_bytes()), ctx.network, addr@, ctx.port),
{
    let mut r = digest_password(password);
    r.push(13);
    r.push(10);
    r.push(if ctx.network == Network::Tcp { 1u8 } else { 3u8 });
    r.push(if addr.len() == 4 { 1u8 } else { 4u8 });
    append_bytes(&mut r, addr);
    r.push((ctx.port / 256) as u8);
    r.push((ctx.port % 256) as u8);
    r.push(13);
    r.push(10);
    assert(r@ =~= request_bytes(password_digest(password.spec_bytes()), ctx.network, addr@, ctx.port));
    r
}

} // verus!
