//! A BEEFY light client: it follows the finality of a BEEFY relay chain by
//! checking MMR update proofs (signed commitments, an authority Merkle proof and
//! an MMR leaf proof) and advancing its view of the authority sets and of the
//! latest MMR root.
pub mod bytes;
pub mod client;
pub mod error;
pub mod host;
pub mod merkle;
pub mod mmr;
pub mod primitives;
pub mod relay;
pub mod scale;
pub mod traits;
