//! The digests and the AEAD cipher that the protocols rest on.
use vstd::prelude::*;
use aes_gcm::aead::{Aead, KeyInit, Payload};
use md5::Digest;

verus! {

/// The MD5 digest of a byte string.
pub uninterp spec fn md5_of(m: Seq<u8>) -> Seq<u8>;

/// The SHA-224 digest of a byte string.
pub uninterp spec fn sha224_of(m: Seq<u8>) -> Seq<u8>;

/// AES-128-GCM encryption of `msg` under `key` and `nonce`, authenticating
/// `aad`: the ciphertext followed by the tag.
pub uninterp spec fn gcm_seal(key: Seq<u8>, nonce: Seq<u8>, aad: Seq<u8>, msg: Seq<u8>) -> Seq<u8>;

/// AES-128-GCM decryption: the plaintext where the tag verifies.
pub uninterp spec fn gcm_open(key: Seq<u8>, nonce: Seq<u8>, aad: Seq<u8>, ct: Seq<u8>) -> Option<
    Seq<u8>,
>;

/// Relies on md5::Md5::digest: the MD5 digest of the input.
#[verifier::external_body]
pub(crate) fn md5(m: &[u8]) -> (r: [u8; 16])
    ensures
        r@ == md5_of(m@),
{
    md5::Md5::digest(m).into()
}

/// Relies on sha2::Sha224::digest: the SHA-224 digest of the input.
#[verifier::external_body]
pub(crate) fn sha224(m: &[u8]) -> (r: [u8; 28])
    ensures
        r@ == sha224_of(m@),
{
    sha2::Sha224::digest(m).into()
}

/// Relies on aes_gcm::Aes128Gcm::encrypt: the ciphertext, as long as the
/// message, then the 16-byte tag; it fails only on inputs longer than 2^36
/// bytes, and decryption with the same key, nonce and associated data gives
/// the message back.
#[verifier::external_body]
pub(crate) fn aes_gcm_seal(key: &[u8], nonce: &[u8], aad: &[u8], msg: &[u8]) -> (r: Vec<u8>)
    requires
        key@.len() == 16,
        nonce@.len() == 12,
        aad@.len() <= 0x100000,
        msg@.len() <= 0x100000,
    ensures
        r@ == gcm_seal(key@, nonce@, aad@, msg@),
        r@.len() == msg@.len() + 16,
        gcm_open(key@, nonce@, aad@, r@) == Some(msg@),
{
    let cipher = aes_gcm::Aes128Gcm::new(aes_gcm::Key::<aes_gcm::Aes128Gcm>::from_slice(key));
    cipher.encrypt(aes_gcm::Nonce::from_slice(nonce), Payload { msg, aad }).unwrap()
}

/// Relies on aes_gcm::Aes128Gcm::decrypt: the plaintext, 16 bytes shorter
/// than the input, where the tag verifies, and an error otherwise.
#[verifier::external_body]
pub(crate) fn aes_gcm_open(key: &[u8], nonce: &[u8], aad: &[u8], ct: &[u8]) -> (r: Option<Vec<u8>>)
    requires
        key@.len() == 16,
        nonce@.len() == 12,
    ensures
        r matches Some(p) ==> gcm_open(key@, nonce@, aad@, ct@) == Some(p@) && p@.len() + 16
            == ct@.len(),
        r is None ==> gcm_open(key@, nonce@, aad@, ct@) is None,
{
    let cipher = aes_gcm::Aes128Gcm::new(aes_gcm::Key::<aes_gcm::Aes128Gcm>::from_slice(key));
    cipher.decrypt(aes_gcm::Nonce::from_slice(nonce), Payload { msg: ct, aad }).ok()
}

} // verus!
