//! The cryptographic primitives that the verifier takes from outside: the
//! Keccak-256 digest, secp256k1 public key recovery and key decompression, and
//! the authority address built from them.
use vstd::prelude::*;

use crate::bytes::{append_bytes, copy_range};

verus! {

/// The Keccak-256 digest of a byte string.
pub uninterp spec fn keccak(data: Seq<u8>) -> Seq<u8>;

/// The compressed secp256k1 public key recovered from a 65-byte signature over a
/// 32-byte message digest, if recovery succeeds.
pub uninterp spec fn recovered_key(sig: Seq<u8>, msg: Seq<u8>) -> Option<Seq<u8>>;

/// The 65-byte uncompressed form of a 33-byte compressed secp256k1 public key,
/// if it is a valid point.
pub uninterp spec fn uncompressed_key(pk: Seq<u8>) -> Option<Seq<u8>>;

/// Relies on sp_core_hashing::keccak_256: the Keccak-256 digest of the input,
/// which depends on the input alone.
#[verifier::external_body]
pub(crate) fn keccak_256(data: &[u8]) -> (r: [u8; 32])
    ensures
        r@ == keccak(data@),
{
    sp_core_hashing::keccak_256(data)
}

/// Relies on sp_io::crypto::secp256k1_ecdsa_recover_compressed: recovers the
/// compressed public key that signed `msg`, or fails on a bad recovery byte, bad
/// `r`/`s` or a failed recovery.
#[verifier::external_body]
pub(crate) fn secp256k1_ecdsa_recover_compressed(sig: &[u8], msg: &[u8; 32]) -> (r: Option<[u8; 33]>)
    requires
        sig@.len() == 65,
    ensures
        r matches Some(k) ==> recovered_key(sig@, msg@) == Some(k@),
        r is None ==> recovered_key(sig@, msg@) is None,
{
    let sig: &[u8; 65] = sig.try_into().unwrap();
    match sp_io::crypto::secp256k1_ecdsa_recover_compressed(sig, msg) {
        Ok(k) => Some(k),
        Err(_) => None,
    }
}

/// Relies on libsecp256k1::PublicKey::parse_compressed, whose key is turned
/// into bytes by PublicKey::serialize: the uncompressed key, `0x04` followed by
/// the two coordinates, or nothing where the bytes are no valid point.
#[verifier::external_body]
fn decompress_public_key(pk: &[u8; 33]) -> (r: Option<[u8; 65]>)
    ensures
        r matches Some(k) ==> uncompressed_key(pk@) == Some(k@),
        r is None ==> uncompressed_key(pk@) is None,
{
    match libsecp256k1::PublicKey::parse_compressed(pk) {
        Ok(k) => Some(k.serialize()),
        Err(_) => None,
    }
}

/// The Ethereum-style address of a compressed key: the low 20 bytes of the
/// Keccak-256 digest of the uncompressed key without its prefix byte. A key that
/// is no valid point has the empty address.
pub open spec fn eth_address(pk: Seq<u8>) -> Seq<u8> {
    match uncompressed_key(pk) {
        Some(full) => keccak(full.subrange(1, 65)).subrange(12, 32),
        None => Seq::empty(),
    }
}

/// The authority address of a compressed secp256k1 public key.
pub fn beefy_address_of(pk: &[u8; 33]) -> (r: Vec<u8>)
    ensures
        r@ == eth_address(pk@),
{
    match decompress_public_key(pk) {
        Some(full) => {
            let body = copy_range(full.as_slice(), 1, 65);
            let digest = keccak_256(body.as_slice());
            copy_range(digest.as_slice(), 12, 32)
        },
        None => Vec::new(),
    }
}

/// The hash of an inner node with children `left` and `right`.
pub open spec fn merge(left: Seq<u8>, right: Seq<u8>) -> Seq<u8> {
    keccak(left + right)
}

/// Hashes the concatenation of two hashes.
pub fn keccak_concat(left: &[u8; 32], right: &[u8; 32]) -> (r: [u8; 32])
    ensures
        r@ == merge(left@, right@),
{
    let mut buf: Vec<u8> = Vec::new();
    append_bytes(&mut buf, left.as_slice());
    append_bytes(&mut buf, right.as_slice());
    keccak_256(buf.as_slice())
}

} // verus!
