//! VMess: the AEAD-protected request header and the response header.
use vstd::prelude::*;
use crate::addr::{address_at, parse_domain, parse_ipv4, parse_ipv6};
use crate::octets::{append_bytes, array16, copy_range};
use crate::crypto::{aes_gcm_open, aes_gcm_seal, gcm_open, gcm_seal, md5, md5_of};
use crate::hash::{kdf, kdf_spec, path_fits, sha256, sha256_of, views_of};
use crate::proxy::{network_of_byte, Network, ProxyError};

verus! {

/// The bytes of `VMess Header AEAD Key_Length`.
pub open spec fn header_length_key() -> Seq<u8> {
    seq![86u8, 77, 101, 115, 115, 32, 72, 101, 97, 100, 101, 114, 32, 65, 69, 65, 68, 32, 75, 101, 121, 95, 76, 101, 110, 103, 116, 104]
}

fn header_length_key_bytes() -> (r: Vec<u8>)
    ensures
        r@ == header_length_key(),
{
    let r: Vec<u8> = vec![86u8, 77, 101, 115, 115, 32, 72, 101, 97, 100, 101, 114, 32, 65, 69, 65, 68, 32, 75, 101, 121, 95, 76, 101, 110, 103, 116, 104];
    assert(r@ =~= header_length_key());
    r
}

/// The bytes of `VMess Header AEAD Nonce_Length`.
pub open spec fn header_length_nonce() -> Seq<u8> {
    seq![86u8, 77, 101, 115, 115, 32, 72, 101, 97, 100, 101, 114, 32, 65, 69, 65, 68, 32, 78, 111, 110, 99, 101, 95, 76, 101, 110, 103, 116, 104]
}

fn header_length_nonce_bytes() -> (r: Vec<u8>)
    ensures
        r@ == header_length_nonce(),
{
    let r: Vec<u8> = vec![86u8, 77, 101, 115, 115, 32, 72, 101, 97, 100, 101, 114, 32, 65, 69, 65, 68, 32, 78, 111, 110, 99, 101, 95, 76, 101, 110, 103, 116, 104];
    assert(r@ =~= header_length_nonce());
    r
}

/// The bytes of `VMess Header AEAD Key`.
pub open spec fn header_key() -> Seq<u8> {
    seq![86u8, 77, 101, 115, 115, 32, 72, 101, 97, 100, 101, 114, 32, 65, 69, 65, 68, 32, 75, 101, 121]
}

fn header_key_bytes() -> (r: Vec<u8>)
    ensures
        r@ == header_key(),
{
    let r: Vec<u8> = vec![86u8, 77, 101, 115, 115, 32, 72, 101, 97, 100, 101, 114, 32, 65, 69, 65, 68, 32, 75, 101, 121];
    assert(r@ =~= header_key());
    r
}

/// The bytes of `VMess Header AEAD Nonce`.
pub open spec fn header_nonce() -> Seq<u8> {
    seq![86u8, 77, 101, 115, 115, 32, 72, 101, 97, 100, 101, 114, 32, 65, 69, 65, 68, 32, 78, 111, 110, 99, 101]
}

fn header_nonce_bytes() -> (r: Vec<u8>)
    ensures
        r@ == header_nonce(),
{
    let r: Vec<u8> = vec![86u8, 77, 101, 115, 115, 32, 72, 101, 97, 100, 101, 114, 32, 65, 69, 65, 68, 32, 78, 111, 110, 99, 101];
    assert(r@ =~= header_nonce());
    r
}

/// The bytes of `AEAD Resp Header Len Key`.
pub open spec fn resp_length_key() -> Seq<u8> {
    seq![65u8, 69, 65, 68, 32, 82, 101, 115, 112, 32, 72, 101, 97, 100, 101, 114, 32, 76, 101, 110, 32, 75, 101, 121]
}

fn resp_length_key_bytes() -> (r: Vec<u8>)
    ensures
        r@ == resp_length_key(),
{
    let r: Vec<u8> = vec![65u8, 69, 65, 68, 32, 82, 101, 115, 112, 32, 72, 101, 97, 100, 101, 114, 32, 76, 101, 110, 32, 75, 101, 121];
    assert(r@ =~= resp_length_key());
    r
}

/// The bytes of `AEAD Resp Header Len IV`.
pub open spec fn resp_length_nonce() -> Seq<u8> {
    seq![65u8, 69, 65, 68, 32, 82, 101, 115, 112, 32, 72, 101, 97, 100, 101, 114, 32, 76, 101, 110, 32, 73, 86]
}

fn resp_length_nonce_bytes() -> (r: Vec<u8>)
    ensures
        r@ == resp_length_nonce(),
{
    let r: Vec<u8> = vec![65u8, 69, 65, 68, 32, 82, 101, 115, 112, 32, 72, 101, 97, 100, 101, 114, 32, 76, 101, 110, 32, 73, 86];
    assert(r@ =~= resp_length_nonce());
    r
}

/// The bytes of `AEAD Resp Header Key`.
pub open spec fn resp_key() -> Seq<u8> {
    seq![65u8, 69, 65, 68, 32, 82, 101, 115, 112, 32, 72, 101, 97, 100, 101, 114, 32, 75, 101, 121]
}

fn resp_key_bytes() -> (r: Vec<u8>)
    ensures
        r@ == resp_key(),
{
    let r: Vec<u8> = vec![65u8, 69, 65, 68, 32, 82, 101, 115, 112, 32, 72, 101, 97, 100, 101, 114, 32, 75, 101, 121];
    assert(r@ =~= resp_key());
    r
}

/// The bytes of `AEAD Resp Header IV`.
pub open spec fn resp_nonce() -> Seq<u8> {
    seq![65u8, 69, 65, 68, 32, 82, 101, 115, 112, 32, 72, 101, 97, 100, 101, 114, 32, 73, 86]
}

fn resp_nonce_bytes() -> (r: Vec<u8>)
    ensures
        r@ == resp_nonce(),
{
    let r: Vec<u8> = vec![65u8, 69, 65, 68, 32, 82, 101, 115, 112, 32, 72, 101, 97, 100, 101, 114, 32, 73, 86];
    assert(r@ =~= resp_nonce());
    r
}

/// The bytes of `c48619fe-8f02-49e0-b9e9-edf763e17e21`.
pub open spec fn auth_key_salt() -> Seq<u8> {
    seq![99u8, 52, 56, 54, 49, 57, 102, 101, 45, 56, 102, 48, 50, 45, 52, 57, 101, 48, 45, 98, 57, 101, 57, 45, 101, 100, 102, 55, 54, 51, 101, 49, 55, 101, 50, 49]
}

fn auth_key_salt_bytes() -> (r: Vec<u8>)
    ensures
        r@ == auth_key_salt(),
{
    let r: Vec<u8> = vec![99u8, 52, 56, 54, 49, 57, 102, 101, 45, 56, 102, 48, 50, 45, 52, 57, 101, 48, 45, 98, 57, 101, 57, 45, 101, 100, 102, 55, 54, 51, 101, 49, 55, 101, 50, 49];
    assert(r@ =~= auth_key_salt());
    r
}

/// The key that authenticates the headers of the user `uuid`.
pub open spec fn auth_key(uuid: Seq<u8>) -> Seq<u8> {
    md5_of(uuid + auth_key_salt())
}

/// The first `n` bytes of the salt derived from `key` along `label`, the
/// auth id and the nonce.
pub open spec fn header_salt(key: Seq<u8>, label: Seq<u8>, auth_id: Seq<u8>, nonce: Seq<u8>, n: int) -> Seq<u8> {
    kdf_spec(key, seq![label, auth_id, nonce]).take(n)
}

/// The first `n` bytes of the salt derived from `key` along `label` alone.
pub open spec fn response_salt(key: Seq<u8>, label: Seq<u8>, n: int) -> Seq<u8> {
    kdf_spec(key, seq![label]).take(n)
}

/// A 16-bit value as two big-endian bytes.
pub open spec fn be16(v: nat) -> Seq<u8> {
    seq![(v / 256) as u8, (v % 256) as u8]
}

/// Opens the header frame at the start of `s` for the user `uuid`: the
/// decrypted header and the length of the frame.
pub open spec fn open_frame(s: Seq<u8>, uuid: Seq<u8>) -> Result<(Seq<u8>, int), ProxyError> {
    if s.len() < 42 {
        Err(ProxyError::Incomplete)
    } else {
        let auth_id = s.subrange(0, 16);
        let nonce = s.subrange(34, 42);
        let key = auth_key(uuid);
        match gcm_open(
            header_salt(key, header_length_key(), auth_id, nonce, 16),
            header_salt(key, header_length_nonce(), auth_id, nonce, 12),
            auth_id,
            s.subrange(16, 34),
        ) {
            None => Err(ProxyError::Auth),
            Some(l) => {
                let end = 42 + (l[0] as int) * 256 + (l[1] as int) + 16;
                if s.len() < end {
                    Err(ProxyError::Incomplete)
                } else {
                    match gcm_open(
                        header_salt(key, header_key(), auth_id, nonce, 16),
                        header_salt(key, header_nonce(), auth_id, nonce, 12),
                        auth_id,
                        s.subrange(42, end),
                    ) {
                        None => Err(ProxyError::Auth),
                        Some(p) => Ok((p, end)),
                    }
                }
            },
        }
    }
}

/// The frame that carries `header` for the user `uuid`.
pub open spec fn sealed_frame(uuid: Seq<u8>, auth_id: Seq<u8>, nonce: Seq<u8>, header: Seq<u8>) -> Seq<u8> {
    let key = auth_key(uuid);
    auth_id + gcm_seal(
        header_salt(key, header_length_key(), auth_id, nonce, 16),
        header_salt(key, header_length_nonce(), auth_id, nonce, 12),
        auth_id,
        be16(header.len()),
    ) + nonce + gcm_seal(
        header_salt(key, header_key(), auth_id, nonce, 16),
        header_salt(key, header_nonce(), auth_id, nonce, 12),
        auth_id,
        header,
    )
}

/// The decoded request header, as plain values.
pub ghost struct HeaderView {
    pub network: Network,
    pub address: Seq<char>,
    pub port: u16,
    pub key: Seq<u8>,
    pub iv: Seq<u8>,
    pub response_header: u8,
}

/// A decoded VMess request header.
pub struct RequestHeader {
    pub network: Network,
    pub address: String,
    pub port: u16,
    pub key: [u8; 16],
    pub iv: [u8; 16],
    pub response_header: u8,
}

impl View for RequestHeader {
    type V = HeaderView;

    open spec fn view(&self) -> HeaderView {
        HeaderView {
            network: self.network,
            address: self.address@,
            port: self.port,
            key: self.key@,
            iv: self.iv@,
            response_header: self.response_header,
        }
    }
}

/// The request that a decrypted header states: version 1, then the IV, the
/// key, five option bytes (the first the response authentication value, the
/// last the network), the port, the address type and the address.
pub open spec fn command(p: Seq<u8>) -> Result<HeaderView, ProxyError> {
    if p.len() < 41 || p[0] != 1 {
        Err(ProxyError::BadRequest)
    } else {
        match network_of_byte(p[37]) {
            None => Err(ProxyError::BadRequest),
            Some(network) => match address_at(p, p[40], 41) {
                None => Err(ProxyError::BadRequest),
                Some(a) => Ok(
                    HeaderView {
                        network,
                        address: a.0,
                        port: ((p[38] as int) * 256 + (p[39] as int)) as u16,
                        key: p.subrange(17, 33),
                        iv: p.subrange(1, 17),
                        response_header: p[33],
                    },
                ),
            },
        }
    }
}

/// The request that the frame at the start of `s` carries, and the length of
/// the frame.
pub open spec fn decode_spec(s: Seq<u8>, uuid: Seq<u8>) -> Result<(HeaderView, int), ProxyError> {
    match open_frame(s, uuid) {
        Err(e) => Err(e),
        Ok((p, end)) => match command(p) {
            Err(e) => Err(e),
            Ok(h) => Ok((h, end)),
        },
    }
}

fn salt_prefix(key: &[u8], path: &[&[u8]], n: usize) -> (r: Vec<u8>)
    requires
        path_fits(views_of(path@)),
        n <= 32,
    ensures
        r@ == kdf_spec(key@, views_of(path@)).take(n as int),
        r@.len() == n,
{
    let salt = kdf(key, path);
    copy_range(salt.as_slice(), 0, n)
}

fn header_salt_of(key: &[u8], label: &[u8], auth_id: &[u8], nonce: &[u8], n: usize) -> (r: Vec<u8>)
    requires
        label@.len() <= 64,
        auth_id@.len() == 16,
        nonce@.len() == 8,
        n <= 32,
    ensures
        r@ == header_salt(key@, label@, auth_id@, nonce@, n as int),
        r@.len() == n,
{
    let path: Vec<&[u8]> = vec![label, auth_id, nonce];
    assert(views_of(path@) =~= seq![label@, auth_id@, nonce@]);
    salt_prefix(key, path.as_slice(), n)
}

fn response_salt_of(key: &[u8], label: &[u8], n: usize) -> (r: Vec<u8>)
    requires
        label@.len() <= 64,
        n <= 32,
    ensures
        r@ == response_salt(key@, label@, n as int),
        r@.len() == n,
{
    let path: Vec<&[u8]> = vec![label];
    assert(views_of(path@) =~= seq![label@]);
    salt_prefix(key, path.as_slice(), n)
}

fn user_key(uuid: &[u8; 16]) -> (r: [u8; 16])
    ensures
        r@ == auth_key(uuid@),
{
    let mut m: Vec<u8> = Vec::new();
    append_bytes(&mut m, uuid.as_slice());
    append_bytes(&mut m, auth_key_salt_bytes().as_slice());
    md5(m.as_slice())
}

/// Decrypts the header frame at the start of `s`: 16 bytes of auth id, the
/// sealed 2-byte header length, an 8-byte nonce, then the sealed header.
/// All four keys are derived before either seal is opened, and a tag that
/// does not verify is one and the same `Auth` error whichever seal it was.
pub fn aead_decrypt(s: &[u8], uuid: &[u8; 16]) -> (r: Result<(Vec<u8>, usize), ProxyError>)
    ensures
        match r {
            Ok((p, end)) => open_frame(s@, uuid@) == Ok::<(Seq<u8>, int), ProxyError>((p@, end as int)),
            Err(e) => open_frame(s@, uuid@) == Err::<(Seq<u8>, int), ProxyError>(e),
        },
{
    if s.len() < 42 {
        return Err(ProxyError::Incomplete);
    }
    let auth_id = copy_range(s, 0, 16);
    let sealed_len = copy_range(s, 16, 34);
    let nonce = copy_range(s, 34, 42);
    let key = user_key(uuid);
    let length_key = header_salt_of(key.as_slice(), header_length_key_bytes().as_slice(), auth_id.as_slice(), nonce.as_slice(), 16);
    let length_nonce = header_salt_of(key.as_slice(), header_length_nonce_bytes().as_slice(), auth_id.as_slice(), nonce.as_slice(), 12);
    let payload_key = header_salt_of(key.as_slice(), header_key_bytes().as_slice(), auth_id.as_slice(), nonce.as_slice(), 16);
    let payload_nonce = header_salt_of(key.as_slice(), header_nonce_bytes().as_slice(), auth_id.as_slice(), nonce.as_slice(), 12);
    let l = match aes_gcm_open(length_key.as_slice(), length_nonce.as_slice(), auth_id.as_slice(), sealed_len.as_slice()) {
        Some(l) => l,
        None => {
            return Err(ProxyError::Auth);
        },
    };
    let end: usize = 42 + (l[0] as usize) * 256 + (l[1] as usize) + 16;
    if s.len() < end {
        return Err(ProxyError::Incomplete);
    }
    let sealed = copy_range(s, 42, end);
    match aes_gcm_open(payload_key.as_slice(), payload_nonce.as_slice(), auth_id.as_slice(), sealed.as_slice()) {
        Some(p) => Ok((p, end)),
        None => Err(ProxyError::Auth),
    }
}

/// Reads the request that a decrypted header states.
pub fn parse_command(p: &[u8]) -> (r: Result<RequestHeader, ProxyError>)
    ensures
        match r {
            Ok(h) => command(p@) == Ok::<HeaderView, ProxyError>(h@),
            Err(e) => command(p@) == Err::<HeaderView, ProxyError>(e),
        },
{
    if p.len() < 41 || p[0] != 1 {
        return Err(ProxyError::BadRequest);
    }
    let iv = array16(p, 1);
    let key = array16(p, 17);
    let network = match Network::from_byte(p[37]) {
        Ok(n) => n,
        Err(e) => {
            return Err(e);
        },
    };
    let port: u16 = (p[38] as u16) * 256 + (p[39] as u16);
    let atype = p[40];
    let read = if atype == 1 {
        parse_ipv4(p, 41)
    } else if atype == 2 {
        parse_domain(p, 41)
    } else if atype == 3 {
        parse_ipv6(p, 41)
    } else {
        None
    };
    match read {
        Some((address, _)) => Ok(
            RequestHeader { network, address, port, key, iv, response_header: p[33] },
        ),
        None => Err(ProxyError::BadRequest),
    }
}

/// Decodes the VMess request at the start of `s` for the user `uuid`: the
/// header, and how many bytes of `s` it took. `Incomplete` says that more
/// bytes are needed.
pub fn decode_request_header(s: &[u8], uuid: &[u8; 16]) -> (r: Result<
    (RequestHeader, usize),
    ProxyError,
>)
    ensures
        match r {
            Ok((h, end)) => decode_spec(s@, uuid@) == Ok::<(HeaderView, int), ProxyError>((h@, end as int)),
            Err(e) => decode_spec(s@, uuid@) == Err::<(HeaderView, int), ProxyError>(e),
        },
{
    match aead_decrypt(s, uuid) {
        Err(e) => Err(e),
        Ok((p, end)) => match parse_command(p.as_slice()) {
            Err(e) => Err(e),
            Ok(h) => Ok((h, end)),
        },
    }
}

/// The two frames that answer a VMess request, as plain values.
pub open spec fn response_spec(key: Seq<u8>, iv: Seq<u8>, response_header: u8) -> (Seq<u8>, Seq<u8>) {
    let k = sha256_of(key).take(16);
    let v = sha256_of(iv).take(16);
    (
        gcm_seal(
            response_salt(k, resp_length_key(), 16),
            response_salt(v, resp_length_nonce(), 12),
            Seq::empty(),
            seq![0u8, 4u8],
        ),
        gcm_seal(
            response_salt(k, resp_key(), 16),
            response_salt(v, resp_nonce(), 12),
            Seq::empty(),
            seq![response_header, 0u8, 0u8, 0u8],
        ),
    )
}

/// The two frames that answer a VMess request: the sealed length and the
/// sealed four-byte response header.
pub struct ResponseHeader {
    pub length: Vec<u8>,
    pub payload: Vec<u8>,
}

/// Seals the response header for the request's data key and IV: the length
/// 4 as two big-endian bytes, then the response authentication value and
/// three zero bytes.
pub fn encode_response_header(key: &[u8; 16], iv: &[u8; 16], response_header: u8) -> (r: Result<
    ResponseHeader,
    ProxyError,
>)
    ensures
        match r {
            Ok(h) => (h.length@, h.payload@) == response_spec(key@, iv@, response_header),
            Err(_) => false,
        },
        r matches Ok(h) ==> ({
            let k = sha256_of(key@).take(16);
            let v = sha256_of(iv@).take(16);
            &&& h.length@.len() == 18
            &&& h.payload@.len() == 20
            &&& gcm_open(response_salt(k, resp_length_key(), 16), response_salt(v, resp_length_nonce(), 12), Seq::empty(), h.length@)
                == Some(seq![0u8, 4u8])
            &&& gcm_open(response_salt(k, resp_key(), 16), response_salt(v, resp_nonce(), 12), Seq::empty(), h.payload@)
                == Some(seq![response_header, 0u8, 0u8, 0u8])
        }),
{
    let k_full = sha256(key.as_slice());
    let k = copy_range(k_full.as_slice(), 0, 16);
    let v_full = sha256(iv.as_slice());
    let v = copy_range(v_full.as_slice(), 0, 16);
    let length_key = response_salt_of(k.as_slice(), resp_length_key_bytes().as_slice(), 16);
    let length_nonce = response_salt_of(v.as_slice(), resp_length_nonce_bytes().as_slice(), 12);
    let payload_key = response_salt_of(k.as_slice(), resp_key_bytes().as_slice(), 16);
    let payload_nonce = response_salt_of(v.as_slice(), resp_nonce_bytes().as_slice(), 12);
    let empty: Vec<u8> = Vec::new();
    let four: Vec<u8> = vec![0u8, 4u8];
    let length = aes_gcm_seal(length_key.as_slice(), length_nonce.as_slice(), empty.as_slice(), four.as_slice());
    let header: Vec<u8> = vec![response_header, 0u8, 0u8, 0u8];
    let payload = aes_gcm_seal(payload_key.as_slice(), payload_nonce.as_slice(), empty.as_slice(), header.as_slice());
    assert(four@ =~= seq![0u8, 4u8]);
    assert(header@ =~= seq![response_header, 0u8, 0u8, 0u8]);
    assert(empty@ =~= Seq::<u8>::empty());
    Ok(ResponseHeader { length, payload })
}

/// Seals `header` into the request frame that a client of the user `uuid`
/// sends: the auth id, the sealed big-endian header length, the nonce, then
/// the sealed header. Opening that frame for the same user gives `header`
/// back, and the frame is exactly as long as it says.
pub fn seal_request_header(uuid: &[u8; 16], auth_id: &[u8; 16], nonce: &[u8; 8], header: &[u8]) -> (r: Vec<u8>)
    requires
        header@.len() < 65536,
    ensures
        r@ == sealed_frame(uuid@, auth_id@, nonce@, header@),
        open_frame(r@, uuid@) == Ok::<(Seq<u8>, int), ProxyError>((header@, r@.len() as int)),
{
    let key = user_key(uuid);
    let a = auth_id.as_slice();
    let n = nonce.as_slice();
    let length_key = header_salt_of(key.as_slice(), header_length_key_bytes().as_slice(), a, n, 16);
    let length_nonce = header_salt_of(key.as_slice(), header_length_nonce_bytes().as_slice(), a, n, 12);
    let payload_key = header_salt_of(key.as_slice(), header_key_bytes().as_slice(), a, n, 16);
    let payload_nonce = header_salt_of(key.as_slice(), header_nonce_bytes().as_slice(), a, n, 12);
    let hl = header.len();
    let len_bytes: Vec<u8> = vec![(hl / 256) as u8, (hl % 256) as u8];
    assert(len_bytes@ =~= be16(header@.len()));
    let sealed_len = aes_gcm_seal(length_key.as_slice(), length_nonce.as_slice(), a, len_bytes.as_slice());
    let sealed = aes_gcm_seal(payload_key.as_slice(), payload_nonce.as_slice(), a, header);
    let mut r: Vec<u8> = Vec::new();
    append_bytes(&mut r, a);
    append_bytes(&mut r, sealed_len.as_slice());
    append_bytes(&mut r, n);
    append_bytes(&mut r, sealed.as_slice());
    proof {
        let s = r@;
        assert(s =~= sealed_frame(uuid@, auth_id@, nonce@, header@));
        assert(s.subrange(0, 16) =~= auth_id@);
        assert(s.subrange(16, 34) =~= sealed_len@);
        assert(s.subrange(34, 42) =~= nonce@);
        let l = be16(header@.len());
        assert((l[0] as int) * 256 + (l[1] as int) == header@.len());
        assert(s.subrange(42, s.len() as int) =~= sealed@);
    }
    r
}

} // verus!
