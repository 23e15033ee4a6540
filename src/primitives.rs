//! The data that MMR update proofs are made of, and the constants of the wire
//! format.
use vstd::prelude::*;

verus! {

/// Length of a hash in bytes.
pub const HASH_LENGTH: usize = 32;

/// Length of a secp256k1 signature (r, s, recovery byte) in bytes.
pub const SIGNATURE_LEN: usize = 65;

/// The payload id under which a commitment carries the MMR root: `b"mh"`.
pub const MMR_ROOT_ID: [u8; 2] = [0x6d, 0x68];

/// A 32-byte hash.
pub type H256 = [u8; 32];

/// A BEEFY authority set as committed to in MMR leaves: its id, its size and the
/// Merkle root over the addresses of its members.
#[derive(Clone, Copy, Debug, PartialEq, Eq)]
pub struct BeefyNextAuthoritySet {
    pub id: u64,
    pub len: u32,
    pub root: H256,
}

/// What the validators sign.
#[derive(Clone, Debug, PartialEq, Eq)]
pub struct Commitment {
    /// Ordered `(id, value)` pairs.
    pub payload: Vec<([u8; 2], Vec<u8>)>,
    pub block_number: u32,
    pub validator_set_id: u64,
}

/// A commitment with one optional signature per member of the signing set.
#[derive(Clone, Debug, PartialEq, Eq)]
pub struct SignedCommitment {
    pub commitment: Commitment,
    pub signatures: Vec<Option<Vec<u8>>>,
}

/// A leaf of the relay chain's MMR.
#[derive(Clone, Copy, Debug, PartialEq, Eq)]
pub struct MmrLeaf {
    pub version: u8,
    pub parent_number_and_hash: (u32, H256),
    pub beefy_next_authority_set: BeefyNextAuthoritySet,
    pub parachain_heads: H256,
}

/// An MMR leaf with its index among the leaves.
#[derive(Clone, Copy, Debug, PartialEq, Eq)]
pub struct MmrLeafWithIndex {
    pub index: u64,
    pub leaf: MmrLeaf,
}

/// Everything needed to advance the client to a newer MMR root.
#[derive(Clone, Debug, PartialEq, Eq)]
pub struct MmrUpdateProof {
    pub signed_commitment: SignedCommitment,
    pub latest_mmr_leaf_with_index: MmrLeafWithIndex,
    pub mmr_proof: Vec<H256>,
    pub authority_proof: Vec<H256>,
}

} // verus!
