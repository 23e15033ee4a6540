use vstd::prelude::*;

verus! {

/// Every way in which reading, checking or storing an MMR update can fail.
#[derive(Clone, Copy, Debug, PartialEq, Eq, Structural)]
pub enum BeefyClientError {
    /// Failed to read a value from storage
    StorageReadError,
    /// Failed to write a value to storage
    StorageWriteError,
    /// Error decoding some value
    DecodingError,
    /// Invalid Mmr Update
    InvalidMmrUpdate,
    /// Error recovering public key from signature
    InvalidSignature,
    /// Some invalid merkle root hash
    InvalidRootHash,
    /// The signers are not members of the authority set
    InvalidAuthorityProof,
    /// The MMR leaf is not included under the MMR root
    InvalidMmrProof,
    /// The client state was already initialised
    AlreadyInitialised,
}

} // verus!
