//! Addresses on the wire: IPv4 and IPv6 bytes and length-prefixed domains,
//! read into text, and IP text written back as bytes.
use vstd::prelude::*;
use vstd::string::StringSliceAdditionalSpecFns;
use vstd::utf8::{
    decode_utf8, encode_utf8, encode_utf8_decode_utf8, encode_utf8_valid_utf8, is_ascii_chars,
    is_ascii_chars_encode_utf8, valid_utf8,
};
use crate::octets::copy_range;
use crate::proxy::ProxyError;
use crate::text::{
    dec_digits, group, groups_text, hex_digits, ipv4_bytes_text, ipv4_text, ipv6_bytes_text,
    ipv6_hex_text, ipv6_text, is_ip_text, is_ipv4_mapped, lemma_std_reads_ip_text, longest_zero_run, parse_ip_std, reads_as_ip, std_ip,
};

verus! {

/// The text that `String::from_utf8_lossy` makes of a byte string.
pub uninterp spec fn utf8_lossy(b: Seq<u8>) -> Seq<char>;

/// Every byte is below 128.
pub open spec fn is_ascii_bytes(b: Seq<u8>) -> bool {
    forall|i: int| 0 <= i < b.len() ==> b[i] < 128
}

/// The characters of ASCII bytes.
pub open spec fn ascii_chars(b: Seq<u8>) -> Seq<char> {
    b.map_values(|c: u8| c as char)
}

/// Relies on String::from_utf8_lossy: the text of the bytes, each invalid
/// sequence replaced; valid UTF-8, and so ASCII, is kept as it is.
#[verifier::external_body]
pub(crate) fn lossy_string(b: &[u8]) -> (r: String)
    ensures
        r@ == utf8_lossy(b@),
        valid_utf8(b@) ==> r@ == decode_utf8(b@),
        is_ascii_bytes(b@) ==> r@ == ascii_chars(b@),
{
    String::from_utf8_lossy(b).into_owned()
}

/// The address text and the position after it, for the four IPv4 bytes at `pos`.
pub open spec fn ipv4_at(s: Seq<u8>, pos: int) -> Option<(Seq<char>, int)> {
    if 0 <= pos && pos + 4 <= s.len() {
        Some((ascii_chars(ipv4_text(s.subrange(pos, pos + 4))), pos + 4))
    } else {
        None
    }
}

/// The address text and the position after it, for the sixteen IPv6 bytes at `pos`.
pub open spec fn ipv6_at(s: Seq<u8>, pos: int) -> Option<(Seq<char>, int)> {
    if 0 <= pos && pos + 16 <= s.len() {
        Some((ascii_chars(ipv6_text(s.subrange(pos, pos + 16))), pos + 16))
    } else {
        None
    }
}

/// The domain and the position after it, for the length byte at `pos` and
/// the bytes that it counts.
pub open spec fn domain_at(s: Seq<u8>, pos: int) -> Option<(Seq<char>, int)> {
    if 0 <= pos && pos < s.len() && pos + 1 + s[pos] <= s.len() {
        Some((utf8_lossy(s.subrange(pos + 1, pos + 1 + s[pos])), pos + 1 + s[pos]))
    } else {
        None
    }
}

/// The address of type `atype` at `pos`: 1 is IPv4, 2 a domain, 3 IPv6.
pub open spec fn address_at(p: Seq<u8>, atype: u8, pos: int) -> Option<(Seq<char>, int)> {
    if atype == 1 {
        ipv4_at(p, pos)
    } else if atype == 2 {
        domain_at(p, pos)
    } else if atype == 3 {
        ipv6_at(p, pos)
    } else {
        None
    }
}

/// A read's result, as plain values.
pub open spec fn read_view(r: Option<(String, usize)>) -> Option<(Seq<char>, int)> {
    match r {
        Some((t, e)) => Some((t@, e as int)),
        None => None,
    }
}

proof fn lemma_dec_ascii(n: nat)
    ensures
        is_ascii_bytes(dec_digits(n)),
    decreases n,
{
    if n >= 10 {
        lemma_dec_ascii(n / 10);
    }
}

proof fn lemma_hex_ascii(n: nat)
    ensures
        is_ascii_bytes(hex_digits(n)),
    decreases n,
{
    if n >= 16 {
        lemma_hex_ascii(n / 16);
    }
}

proof fn lemma_groups_ascii(b: Seq<u8>, lo: int, hi: int)
    ensures
        is_ascii_bytes(groups_text(b, lo, hi)),
    decreases hi - lo,
{
    if hi > lo + 1 {
        lemma_groups_ascii(b, lo, hi - 1);
        lemma_hex_ascii(group(b, hi - 1));
    } else if hi == lo + 1 {
        lemma_hex_ascii(group(b, lo));
    }
}

/// IP texts are ASCII.
pub proof fn lemma_ip_text_ascii(b: Seq<u8>)
    ensures
        b.len() == 4 ==> is_ascii_bytes(ipv4_text(b)),
        b.len() == 16 ==> is_ascii_bytes(ipv6_text(b)),
{
    if b.len() == 4 {
        lemma_dec_ascii(b[0] as nat);
        lemma_dec_ascii(b[1] as nat);
        lemma_dec_ascii(b[2] as nat);
        lemma_dec_ascii(b[3] as nat);
    }
    if b.len() == 16 && is_ipv4_mapped(b) {
        let q = b.subrange(12, 16);
        lemma_dec_ascii(q[0] as nat);
        lemma_dec_ascii(q[1] as nat);
        lemma_dec_ascii(q[2] as nat);
        lemma_dec_ascii(q[3] as nat);
        assert(is_ascii_bytes(ipv4_text(q)));
        let t = ipv6_text(b);
        assert forall|i: int| 0 <= i < t.len() implies t[i] < 128 by {
            if i >= 7 {
                assert(t[i] == ipv4_text(q)[i - 7]);
            }
        }
    }
    let run = longest_zero_run(b, 0);
    assert(!is_ipv4_mapped(b) ==> ipv6_text(b) == ipv6_hex_text(b));
    lemma_groups_ascii(b, 0, 8);
    lemma_groups_ascii(b, 0, run.0);
    lemma_groups_ascii(b, run.0 + run.1, 8);
}

/// A text whose UTF-8 bytes are the IP text of `b` is the ASCII reading of
/// that IP text.
pub proof fn lemma_ip_text_chars(c: Seq<char>, b: Seq<u8>)
    requires
        is_ip_text(encode_utf8(c), b),
    ensures
        c == ascii_chars(encode_utf8(c)),
        b.len() == 4 ==> c == ascii_chars(ipv4_text(b)),
        b.len() == 16 ==> c == ascii_chars(ipv6_text(b)),
{
    let t = encode_utf8(c);
    lemma_ip_text_ascii(b);
    let c2 = ascii_chars(t);
    assert(is_ascii_chars(c2));
    is_ascii_chars_encode_utf8(c2);
    assert(encode_utf8(c2) =~= t);
    encode_utf8_decode_utf8(c);
    encode_utf8_decode_utf8(c2);
}

/// A domain written as its length byte and its UTF-8 bytes, at most 255 of
/// them, is read back whole: `parse_domain` gives the text itself.
pub proof fn lemma_domain_round_trip(c: Seq<char>)
    requires
        encode_utf8(c).len() <= 255,
    ensures
        ({
            let s = seq![encode_utf8(c).len() as u8] + encode_utf8(c);
            &&& domain_at(s, 0) is Some
            &&& domain_at(s, 0).unwrap().1 == s.len()
            &&& s.subrange(1, s.len() as int) == encode_utf8(c)
            &&& valid_utf8(encode_utf8(c))
            &&& decode_utf8(encode_utf8(c)) == c
        }),
{
    let s = seq![encode_utf8(c).len() as u8] + encode_utf8(c);
    assert(s.subrange(1, s.len() as int) =~= encode_utf8(c));
    encode_utf8_valid_utf8(c);
    encode_utf8_decode_utf8(c);
}

/// The text that an IP address is read as is UTF-8 whose bytes are the
/// address's text, so that `encode_addr` gives the address back.
pub proof fn lemma_ip_round_trip(b: Seq<u8>)
    requires
        b.len() == 4 || b.len() == 16,
    ensures
        b.len() == 4 ==> encode_utf8(ascii_chars(ipv4_text(b))) == ipv4_text(b),
        b.len() == 16 ==> encode_utf8(ascii_chars(ipv6_text(b))) == ipv6_text(b),
{
    lemma_ip_text_ascii(b);
    if b.len() == 4 {
        let t = ipv4_text(b);
        assert(is_ascii_chars(ascii_chars(t)));
        is_ascii_chars_encode_utf8(ascii_chars(t));
        assert(encode_utf8(ascii_chars(t)) =~= t);
    } else {
        let t = ipv6_text(b);
        assert(is_ascii_chars(ascii_chars(t)));
        is_ascii_chars_encode_utf8(ascii_chars(t));
        assert(encode_utf8(ascii_chars(t)) =~= t);
    }
}

/// Reads the four IPv4 bytes at `pos` as dotted-quad text.
pub fn parse_ipv4(s: &[u8], pos: usize) -> (r: Option<(String, usize)>)
    ensures
        read_view(r) == ipv4_at(s@, pos as int),
{
    if pos > s.len() || s.len() - pos < 4 {
        return None;
    }
    let raw = copy_range(s, pos, pos + 4);
    let text = ipv4_bytes_text(raw.as_slice());
    proof {
        lemma_ip_text_ascii(raw@);
    }
    Some((lossy_string(text.as_slice()), pos + 4))
}

/// Reads the sixteen IPv6 bytes at `pos` as IPv6 text.
pub fn parse_ipv6(s: &[u8], pos: usize) -> (r: Option<(String, usize)>)
    ensures
        read_view(r) == ipv6_at(s@, pos as int),
{
    if pos > s.len() || s.len() - pos < 16 {
        return None;
    }
    let raw = copy_range(s, pos, pos + 16);
    let text = ipv6_bytes_text(raw.as_slice());
    proof {
        lemma_ip_text_ascii(raw@);
    }
    Some((lossy_string(text.as_slice()), pos + 16))
}

/// Reads the length byte at `pos` and the domain bytes that it counts;
/// bytes that are valid UTF-8 come back as the text they encode.
pub fn parse_domain(s: &[u8], pos: usize) -> (r: Option<(String, usize)>)
    ensures
        read_view(r) == domain_at(s@, pos as int),
        r matches Some((t, e)) ==> (valid_utf8(s@.subrange(pos + 1, e as int)) ==> t@ == decode_utf8(
            s@.subrange(pos + 1, e as int),
        )),
{
    if pos >= s.len() {
        return None;
    }
    let len = s[pos] as usize;
    if s.len() - pos - 1 < len {
        return None;
    }
    let raw = copy_range(s, pos + 1, pos + 1 + len);
    Some((lossy_string(raw.as_slice()), pos + 1 + len))
}

/// The address bytes of an IP text, as Rust's standard library parses IP
/// text: four for IPv4, sixteen for IPv6. Any other text, a domain among
/// them, is refused. The text of an address gives back that address.
pub fn encode_addr(addr: &str) -> (r: Result<Vec<u8>, ProxyError>)
    ensures
        match r {
            Ok(v) => reads_as_ip(addr.spec_bytes(), Some(v@)),
            Err(e) => reads_as_ip(addr.spec_bytes(), None) && e == ProxyError::Upstream,
        },
        r matches Ok(v) ==> v@.len() == 4 || v@.len() == 16,
        forall|b: Seq<u8>| is_ip_text(addr.spec_bytes(), b) ==> (r matches Ok(v) && v@ == b),
{
    let t = addr.as_bytes();
    proof {
        assert forall|b: Seq<u8>| is_ip_text(t@, b) implies std_ip(t@) == Some(b) by {
            lemma_std_reads_ip_text(b);
        }
    }
    match parse_ip_std(t) {
        Some(v) => Ok(v),
        None => Err(ProxyError::Upstream),
    }
}

/// Reads the address of type `atype` at `pos`: 1 is IPv4, 2 a domain, 3 IPv6.
pub fn parse_address(s: &[u8], atype: u8, pos: usize) -> (r: Option<(String, usize)>)
    ensures
        read_view(r) == address_at(s@, atype, pos as int),
{
    if atype == 1 {
        parse_ipv4(s, pos)
    } else if atype == 2 {
        parse_domain(s, pos)
    } else if atype == 3 {
        parse_ipv6(s, pos)
    } else {
        None
    }
}

} // verus!
