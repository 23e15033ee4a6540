//! The MMR check: an inclusion proof for the last leaf of a Merkle Mountain
//! Range, as ckb-merkle-mountain-range checks it with Keccak-256 merging. The
//! leaf at `leaf_index` is taken as the tip of an MMR of `leaf_index + 1`
//! leaves.
use vstd::prelude::*;

use crate::host::keccak_concat;
use crate::merkle::hashes_view;
use crate::primitives::H256;

verus! {

/// The largest leaf index, plus one, whose MMR size and positions stay within
/// the 64-bit arithmetic of the MMR library.
pub const MMR_LEAF_INDEX_LIMIT: u64 = 0x4000_0000_0000_0000;

/// The number of peaks of an MMR of `n` leaves: the number of one bits of `n`.
pub open spec fn peak_count(n: nat) -> nat
    decreases n,
{
    if n == 0 {
        0
    } else {
        (n % 2) + peak_count(n / 2)
    }
}

/// The height of the rightmost peak of an MMR of `n` leaves: the number of
/// trailing zero bits of `n`.
pub open spec fn last_peak_height(n: nat) -> nat
    decreases n,
{
    if n == 0 || n % 2 == 1 {
        0
    } else {
        1 + last_peak_height(n / 2)
    }
}

/// The number of nodes of an MMR of `n` leaves.
pub open spec fn mmr_size(n: nat) -> int {
    2 * n - peak_count(n)
}

/// The position among the nodes of the last leaf of an MMR of `n` leaves.
pub open spec fn tip_position(n: nat) -> int {
    mmr_size(n) - last_peak_height(n) - 1
}

/// Whether the MMR library, merging with Keccak-256, accepts `proof` for the
/// leaf of hash `leaf_hash` as the last leaf, of index `leaf_index`, of the MMR
/// whose root is `root`.
pub uninterp spec fn mmr_tip_accepted(root: Seq<u8>, leaf_hash: Seq<u8>, proof: Seq<Seq<u8>>, leaf_index: u64) -> bool;

/// The proof shows the leaf of hash `leaf_hash` as the last leaf, of index
/// `leaf_index`, of an MMR whose root is `root`.
pub open spec fn mmr_proof_valid(root: Seq<u8>, leaf_hash: Seq<u8>, proof: Seq<Seq<u8>>, leaf_index: u64) -> bool {
    &&& leaf_index < MMR_LEAF_INDEX_LIMIT
    &&& mmr_tip_accepted(root, leaf_hash, proof, leaf_index)
}

/// The error type of the MMR library, carried through as it is.
#[verifier::external_type_specification]
#[verifier::external_body]
pub struct ExMmrError(ckb_merkle_mountain_range::Error);

/// Keccak-256 of the concatenation as the merge of MMR nodes.
pub struct KeccakMerge;

impl ckb_merkle_mountain_range::Merge for KeccakMerge {
    type Item = [u8; 32];

    fn merge(left: &[u8; 32], right: &[u8; 32]) -> ckb_merkle_mountain_range::Result<[u8; 32]> {
        Ok(keccak_concat(left, right))
    }
}

proof fn lemma_peak_count_bounds(n: nat)
    ensures
        peak_count(n) <= n,
        n > 0 ==> peak_count(n) >= 1,
    decreases n,
{
    if n > 0 {
        lemma_peak_count_bounds(n / 2);
    }
}

proof fn lemma_last_peak_height_bound(n: nat)
    requires
        n > 0,
    ensures
        last_peak_height(n) + peak_count(n) <= n,
    decreases n,
{
    if n % 2 == 1 {
        lemma_peak_count_bounds(n / 2);
    } else {
        lemma_last_peak_height_bound(n / 2);
    }
}

fn count_peaks(n: u64) -> (r: u64)
    ensures
        r == peak_count(n as nat),
{
    let mut m: u64 = n;
    let mut c: u64 = 0;
    while m > 0
        invariant
            peak_count(n as nat) == c + peak_count(m as nat),
            c + m <= n,
        decreases m,
    {
        c = c + m % 2;
        m = m / 2;
    }
    c
}

fn count_trailing_zeros(n: u64) -> (r: u64)
    ensures
        r == last_peak_height(n as nat),
{
    let mut m: u64 = n;
    let mut t: u64 = 0;
    while m > 0 && m % 2 == 0
        invariant
            last_peak_height(n as nat) == t + last_peak_height(m as nat),
            t + m <= n,
        decreases m,
    {
        t = t + 1;
        m = m / 2;
    }
    t
}

/// Relies on ckb_merkle_mountain_range::MerkleProof::verify with `KeccakMerge`,
/// for one leaf at position `pos` of an MMR of `size` nodes: whether the proof
/// leads from the leaf to `root`; a proof the library calls corrupted counts as
/// not accepted. The answer depends on the arguments alone.
#[verifier::external_body]
fn mmr_verify_tip(root: &H256, leaf_hash: &H256, proof: &Vec<H256>, leaf_index: u64, size: u64, pos: u64) -> (r:
    bool)
    requires
        leaf_index < MMR_LEAF_INDEX_LIMIT,
        size == mmr_size((leaf_index + 1) as nat),
        pos == tip_position((leaf_index + 1) as nat),
    ensures
        r == mmr_tip_accepted(root@, leaf_hash@, hashes_view(proof@), leaf_index),
{
    let checker = ckb_merkle_mountain_range::MerkleProof::<H256, KeccakMerge>::new(size, proof.clone());
    match checker.verify(*root, vec![(pos, *leaf_hash)]) {
        Ok(accepted) => accepted,
        Err(_) => false,
    }
}

/// Checks that `proof` shows the leaf of hash `leaf_hash` as the last leaf, of
/// index `leaf_index`, of the MMR of root `root`. Indices from
/// `MMR_LEAF_INDEX_LIMIT` on are refused.
pub fn verify_mmr_leaf_proof(root: &H256, leaf_hash: &H256, proof: &Vec<H256>, leaf_index: u64) -> (r:
    bool)
    ensures
        r == mmr_proof_valid(root@, leaf_hash@, hashes_view(proof@), leaf_index),
{
    if leaf_index >= MMR_LEAF_INDEX_LIMIT {
        return false;
    }
    let leaf_count: u64 = leaf_index + 1;
    let peaks = count_peaks(leaf_count);
    let height = count_trailing_zeros(leaf_count);
    proof {
        lemma_peak_count_bounds(leaf_count as nat);
        lemma_last_peak_height_bound(leaf_count as nat);
    }
    let size: u64 = 2 * leaf_count - peaks;
    let pos: u64 = size - height - 1;
    mmr_verify_tip(root, leaf_hash, proof, leaf_index, size, pos)
}

} // verus!
