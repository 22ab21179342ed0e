//! The VMess key derivation: a chain of HMAC constructions over SHA-256.
use vstd::prelude::*;
use sha2::Digest;
use crate::octets::append_bytes;

verus! {

/// The SHA-256 digest of a byte string.
pub uninterp spec fn sha256_of(m: Seq<u8>) -> Seq<u8>;

/// Relies on sha2::Sha256::digest: the SHA-256 digest of the input.
#[verifier::external_body]
pub(crate) fn sha256(m: &[u8]) -> (r: [u8; 32])
    ensures
        r@ == sha256_of(m@),
{
    sha2::Sha256::digest(m).into()
}

/// The label that keys the innermost link of every derivation chain.
pub open spec fn kdf_root() -> Seq<u8> {
    seq![86u8, 77, 101, 115, 115, 32, 65, 69, 65, 68, 32, 75, 68, 70]
}

/// A key of at most 64 bytes, zero-padded to 64 bytes and XORed with `c`.
pub open spec fn padded_key(k: Seq<u8>, c: u8) -> Seq<u8> {
    Seq::new(64, |i: int| if i < k.len() { k[i] ^ c } else { c })
}

/// Hashing `msg` with the chain whose links are keyed, innermost first, by
/// `keys`: a chain with no link is SHA-256; each further link is HMAC over the
/// chain beneath it.
pub open spec fn hmac_chain(keys: Seq<Seq<u8>>, msg: Seq<u8>) -> Seq<u8>
    decreases keys.len(),
{
    if keys.len() == 0 {
        sha256_of(msg)
    } else {
        let k = keys.last();
        let below = keys.drop_last();
        hmac_chain(below, padded_key(k, 0x5c) + hmac_chain(below, padded_key(k, 0x36) + msg))
    }
}

/// The 32-byte salt derived from `key` along `path`.
pub open spec fn kdf_spec(key: Seq<u8>, path: Seq<Seq<u8>>) -> Seq<u8> {
    hmac_chain(seq![kdf_root()] + path, key)
}

/// Every label of the path fits in one hash block.
pub open spec fn path_fits(path: Seq<Seq<u8>>) -> bool {
    forall|i: int| 0 <= i < path.len() ==> (#[trigger] path[i]).len() <= 64
}

/// The byte strings of a path of labels.
pub open spec fn views_of(path: Seq<&[u8]>) -> Seq<Seq<u8>> {
    path.map_values(|p: &[u8]| p@)
}

fn padded(k: &[u8], c: u8) -> (r: Vec<u8>)
    requires
        k@.len() <= 64,
    ensures
        r@ == padded_key(k@, c),
{
    let mut r: Vec<u8> = Vec::new();
    let mut i: usize = 0;
    while i < 64
        invariant
            i <= 64,
            k@.len() <= 64,
            r@ == padded_key(k@, c).take(i as int),
        decreases 64 - i,
    {
        let b = if i < k.len() {
            k[i] ^ c
        } else {
            c
        };
        r.push(b);
        i = i + 1;
        assert(r@ =~= padded_key(k@, c).take(i as int));
    }
    assert(r@ =~= padded_key(k@, c));
    r
}

fn chain(keys: &Vec<&[u8]>, n: usize, msg: &[u8]) -> (r: [u8; 32])
    requires
        n <= keys@.len(),
        path_fits(views_of(keys@)),
    ensures
        r@ == hmac_chain(views_of(keys@).take(n as int), msg@),
    decreases n,
{
    let ghost ks = views_of(keys@);
    if n == 0 {
        assert(ks.take(0) =~= Seq::<Seq<u8>>::empty());
        sha256(msg)
    } else {
        let k: &[u8] = keys[n - 1];
        assert(ks[n - 1] == k@);
        assert(ks.take(n as int).drop_last() =~= ks.take(n - 1));
        let mut inner_msg = padded(k, 0x36);
        append_bytes(&mut inner_msg, msg);
        let inner = chain(keys, n - 1, inner_msg.as_slice());
        let mut outer_msg = padded(k, 0x5c);
        append_bytes(&mut outer_msg, inner.as_slice());
        chain(keys, n - 1, outer_msg.as_slice())
    }
}

/// Derives a 32-byte salt from `key` along the labels of `path`.
pub fn kdf(key: &[u8], path: &[&[u8]]) -> (r: [u8; 32])
    requires
        path_fits(views_of(path@)),
    ensures
        r@ == kdf_spec(key@, views_of(path@)),
{
    let root: [u8; 14] = [86, 77, 101, 115, 115, 32, 65, 69, 65, 68, 32, 75, 68, 70];
    let rs: &[u8] = root.as_slice();
    let mut keys: Vec<&[u8]> = Vec::new();
    keys.push(rs);
    let mut i: usize = 0;
    while i < path.len()
        invariant
            i <= path@.len(),
            keys@ == seq![rs] + path@.take(i as int),
        decreases path@.len() - i,
    {
        keys.push(path[i]);
        i = i + 1;
        assert(keys@ =~= seq![rs] + path@.take(i as int));
    }
    assert(path@.take(i as int) =~= path@);
    assert(views_of(keys@) =~= seq![kdf_root()] + views_of(path@));
    assert(views_of(keys@).take(keys@.len() as int) =~= views_of(keys@));
    chain(&keys, keys.len(), key)
}

} // verus!
