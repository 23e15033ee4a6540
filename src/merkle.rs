//! The authority Merkle check: a multi-leaf proof over a binary Keccak tree of a
//! given number of leaves, as rs_merkle builds and checks it (a layer with an
//! odd number of nodes carries its last node up unchanged).
use vstd::prelude::*;

use crate::host::keccak_256;
use crate::primitives::H256;

verus! {

/// A node of a tree layer: its index in the layer and its hash.
pub type NodeView = (int, Seq<u8>);

/// The spec view of a list of indexed hashes.
pub open spec fn nodes_view(nodes: Seq<(usize, H256)>) -> Seq<NodeView> {
    nodes.map_values(|n: (usize, H256)| (n.0 as int, n.1@))
}

/// The spec view of a list of hashes.
pub open spec fn hashes_view(hashes: Seq<H256>) -> Seq<Seq<u8>> {
    hashes.map_values(|h: H256| h@)
}

/// Whether rs_merkle, hashing with Keccak-256, accepts `proof` as showing the
/// leaves, at their indices, beneath `root` in a tree of `len` leaves.
pub uninterp spec fn merkle_proof_valid(
    root: Seq<u8>,
    leaves: Seq<NodeView>,
    proof: Seq<Seq<u8>>,
    len: int,
) -> bool;

/// Keccak-256 as the hash of rs_merkle's trees.
#[derive(Clone)]
pub struct KeccakHasher;

impl rs_merkle::Hasher for KeccakHasher {
    type Hash = [u8; 32];

    fn hash(data: &[u8]) -> [u8; 32] {
        keccak_256(data)
    }
}

/// Relies on rs_merkle::MerkleProof::verify with `KeccakHasher`: whether the
/// proof shows the leaves at their indices beneath `root` in a tree of `len`
/// leaves. The answer depends on the arguments alone.
#[verifier::external_body]
pub(crate) fn verify_merkle_proof(root: &H256, leaves: &Vec<(usize, H256)>, proof: &Vec<H256>, len: usize) -> (r:
    bool)
    ensures
        r == merkle_proof_valid(root@, nodes_view(leaves@), hashes_view(proof@), len as int),
{
    let indices: Vec<usize> = leaves.iter().map(|l| l.0).collect();
    let hashes: Vec<H256> = leaves.iter().map(|l| l.1).collect();
    rs_merkle::MerkleProof::<KeccakHasher>::new(proof.clone()).verify(*root, &indices, &hashes, len)
}

} // verus!
