//! Bepass: the destination comes from the query string of the upgrade request.
use vstd::prelude::*;
use crate::addr::{lossy_string, utf8_lossy};
use vstd::utf8::{decode_utf8, valid_utf8};
use crate::octets::bytes_equal;
use crate::proxy::{network_name, Header, HeaderView, Network, ProxyError};

verus! {

/// The value of ASCII decimal digits.
pub open spec fn dec_value(d: Seq<u8>) -> nat
    decreases d.len(),
{
    if d.len() == 0 {
        0
    } else {
        dec_value(d.drop_last()) * 10 + (d.last() - 48) as nat
    }
}

/// Every byte is an ASCII digit.
pub open spec fn all_digits(d: Seq<u8>) -> bool {
    forall|i: int| 0 <= i < d.len() ==> 48 <= #[trigger] d[i] <= 57
}

/// A port value without its optional leading `+`.
pub open spec fn port_digits(v: Seq<u8>) -> Seq<u8> {
    if v.len() > 0 && v[0] == 43 {
        v.drop_first()
    } else {
        v
    }
}

/// The port that a query value states: an optional `+`, then one or more
/// decimal digits whose value fits in 16 bits.
pub open spec fn port_of(v: Seq<u8>) -> Option<u16> {
    let d = port_digits(v);
    if d.len() > 0 && all_digits(d) && dec_value(d) < 65536 {
        Some(dec_value(d) as u16)
    } else {
        None
    }
}

/// Reads a port number from a query value.
pub fn parse_port(v: &[u8]) -> (r: Option<u16>)
    ensures
        r == port_of(v@),
{
    let start: usize = if v.len() > 0 && v[0] == 43 { 1 } else { 0 };
    let ghost d = port_digits(v@);
    assert(d =~= v@.subrange(start as int, v@.len() as int));
    if start >= v.len() {
        return None;
    }
    let mut acc: u32 = 0;
    let mut i: usize = start;
    while i < v.len()
        invariant
            start <= i <= v@.len(),
            d == v@.subrange(start as int, v@.len() as int),
            d == port_digits(v@),
            all_digits(v@.subrange(start as int, i as int)),
            acc as nat == dec_value(v@.subrange(start as int, i as int)),
            acc < 65536,
        decreases v@.len() - i,
    {
        let c = v[i];
        if c < 48 || c > 57 {
            proof {
                assert(d[i - start] == c);
                assert(!all_digits(d));
                assert(port_of(v@) is None);
            }
            return None;
        }
        assert(v@.subrange(start as int, i + 1).drop_last() =~= v@.subrange(start as int, i as int));
        assert(all_digits(v@.subrange(start as int, i + 1)));
        acc = acc * 10 + (c - 48) as u32;
        i = i + 1;
        assert(acc as nat == dec_value(v@.subrange(start as int, i as int)));
        if acc >= 65536 {
            proof {
                if all_digits(d) {
                    lemma_dec_value_grows(d, i - start);
                    assert(d.take(i - start) =~= v@.subrange(start as int, i as int));
                }
                assert(port_of(v@) is None);
            }
            return None;
        }
    }
    assert(v@.subrange(start as int, i as int) =~= d);
    Some(acc as u16)
}

/// The value of digits is at least that of any prefix of them.
proof fn lemma_dec_value_grows(d: Seq<u8>, k: int)
    requires
        0 <= k <= d.len(),
        all_digits(d),
    ensures
        dec_value(d) >= dec_value(d.take(k)),
    decreases d.len() - k,
{
    if k < d.len() {
        lemma_dec_value_grows(d, k + 1);
        assert(d.take(k + 1).drop_last() =~= d.take(k));
    }
    assert(d.take(d.len() as int) =~= d);
}

/// Once the pairs hold an invalid port or network, the pairs after it change
/// nothing.
proof fn lemma_fold_error_stays(q: Seq<(Seq<u8>, Seq<u8>)>, n: int, m: int)
    requires
        0 <= n <= m,
        query_fold(q, n) is Err,
    ensures
        query_fold(q, m) == query_fold(q, n),
    decreases m - n,
{
    if m > n {
        lemma_fold_error_stays(q, n, m - 1);
    }
}

/// The bytes of `host`.
pub open spec fn key_host() -> Seq<u8> {
    seq![104u8, 111, 115, 116]
}

/// The bytes of `port`.
pub open spec fn key_port() -> Seq<u8> {
    seq![112u8, 111, 114, 116]
}

/// The bytes of `net`.
pub open spec fn key_net() -> Seq<u8> {
    seq![110u8, 101, 116]
}

/// What the query pairs `q[..n]` state so far: the last host, port and
/// network given, or the error of the first invalid port or network.
pub open spec fn query_fold(q: Seq<(Seq<u8>, Seq<u8>)>, n: int) -> Result<(Option<Seq<u8>>, Option<u16>, Option<Network>), ProxyError>
    decreases n,
{
    if n <= 0 {
        Ok((None, None, None))
    } else {
        match query_fold(q, n - 1) {
            Err(e) => Err(e),
            Ok((h, p, net)) => {
                let (k, v) = q[n - 1];
                if k == key_host() {
                    Ok((Some(v), p, net))
                } else if k == key_port() {
                    match port_of(v) {
                        Some(x) => Ok((h, Some(x), net)),
                        None => Err(ProxyError::BadRequest),
                    }
                } else if k == key_net() {
                    if v == network_name(Network::Tcp) {
                        Ok((h, p, Some(Network::Tcp)))
                    } else if v == network_name(Network::Udp) {
                        Ok((h, p, Some(Network::Udp)))
                    } else {
                        Err(ProxyError::BadRequest)
                    }
                } else {
                    Ok((h, p, net))
                }
            },
        }
    }
}

/// The destination that the query pairs name: `host`, `port` and `net` must
/// all be there, and where one is given twice the last one counts.
pub open spec fn decode_spec(q: Seq<(Seq<u8>, Seq<u8>)>) -> Result<HeaderView, ProxyError> {
    match query_fold(q, q.len() as int) {
        Err(e) => Err(e),
        Ok((Some(h), Some(p), Some(net))) => Ok(HeaderView { network: net, address: utf8_lossy(h), port: p }),
        Ok(_) => Err(ProxyError::BadRequest),
    }
}

/// Query pairs as plain byte strings.
pub open spec fn pairs_view(q: Seq<(Vec<u8>, Vec<u8>)>) -> Seq<(Seq<u8>, Seq<u8>)> {
    q.map_values(|p: (Vec<u8>, Vec<u8>)| (p.0@, p.1@))
}

/// Reads the destination from the query pairs of the upgrade request, keys
/// and values as their bytes.
pub fn decode_request_header(query: &Vec<(Vec<u8>, Vec<u8>)>) -> (r: Result<Header, ProxyError>)
    ensures
        match r {
            Ok(h) => decode_spec(pairs_view(query@)) == Ok::<HeaderView, ProxyError>(h@),
            Err(e) => decode_spec(pairs_view(query@)) == Err::<HeaderView, ProxyError>(e),
        },
        r matches Ok(h) ==> (query_fold(pairs_view(query@), query@.len() as int) matches Ok((Some(host), _, _))
            && (valid_utf8(host) ==> h.address@ == decode_utf8(host))),
{
    let ghost q = pairs_view(query@);
    let host_key: Vec<u8> = vec![104u8, 111, 115, 116];
    let port_key: Vec<u8> = vec![112u8, 111, 114, 116];
    let net_key: Vec<u8> = vec![110u8, 101, 116];
    assert(host_key@ =~= key_host());
    assert(port_key@ =~= key_port());
    assert(net_key@ =~= key_net());
    let mut host: Option<usize> = None;
    let mut port: Option<u16> = None;
    let mut network: Option<Network> = None;
    let mut i: usize = 0;
    while i < query.len()
        invariant
            i <= query@.len(),
            q == pairs_view(query@),
            host_key@ == key_host(),
            port_key@ == key_port(),
            net_key@ == key_net(),
            host matches Some(j) ==> j < i,
            query_fold(q, i as int) == Ok::<(Option<Seq<u8>>, Option<u16>, Option<Network>), ProxyError>(
                (
                    match host {
                        Some(j) => Some(q[j as int].1),
                        None => None,
                    },
                    port,
                    network,
                ),
            ),
        decreases query@.len() - i,
    {
        let k = query[i].0.as_slice();
        let v = query[i].1.as_slice();
        assert(q[i as int] == (k@, v@));
        if bytes_equal(k, host_key.as_slice()) {
            host = Some(i);
        } else if bytes_equal(k, port_key.as_slice()) {
            match parse_port(v) {
                Some(x) => {
                    port = Some(x);
                },
                None => {
                    proof {
                        lemma_fold_error_stays(q, i + 1, q.len() as int);
                    }
                    return Err(ProxyError::BadRequest);
                },
            }
        } else if bytes_equal(k, net_key.as_slice()) {
            match Network::from_name(v) {
                Ok(n) => {
                    network = Some(n);
                },
                Err(e) => {
                    proof {
                        lemma_fold_error_stays(q, i + 1, q.len() as int);
                    }
                    return Err(e);
                },
            }
        }
        i = i + 1;
    }
    match (host, port, network) {
        (Some(j), Some(p), Some(n)) => Ok(
            Header { network: n, address: lossy_string(query[j].1.as_slice()), port: p },
        ),
        _ => Err(ProxyError::BadRequest),
    }
}

} // verus!
