//! The client's persistent state and the storage that holds it.
use vstd::prelude::*;

use crate::error::BeefyClientError;
use crate::primitives::{BeefyNextAuthoritySet, H256};
use crate::scale::{
    authority_sets_bytes, decode_authority_sets, decode_mmr_state, encode_authority_sets,
    encode_mmr_state, lemma_authority_sets_bytes_len, lemma_authority_sets_round_trip,
    lemma_mmr_state_bytes_len, lemma_mmr_state_round_trip, mmr_state_bytes,
};

verus! {

/// The latest height that the client has seen finalized, and the MMR root at
/// that height.
#[derive(Clone, Copy, Debug, PartialEq, Eq)]
pub struct MmrState {
    pub latest_beefy_height: u32,
    pub mmr_root_hash: H256,
}

/// The authority set that signs now, and the one that will sign next.
#[derive(Clone, Copy, Debug, PartialEq, Eq)]
pub struct AuthoritySet {
    pub current_authorities: BeefyNextAuthoritySet,
    pub next_authorities: BeefyNextAuthoritySet,
}

impl AuthoritySet {
    /// The next set follows the current one.
    pub open spec fn well_formed(&self) -> bool {
        self.next_authorities.id == self.current_authorities.id + 1
    }
}

/// The errors with which a read can fail: the storage failed, or what it holds
/// does not decode.
pub open spec fn is_read_error(e: BeefyClientError) -> bool {
    e == BeefyClientError::StorageReadError || e == BeefyClientError::DecodingError
}

/// What a read of a stored value gives: the value, or a decoding error where
/// the stored bytes encode none.
pub open spec fn decoded_read<T>(v: Option<T>) -> Result<T, BeefyClientError> {
    match v {
        Some(x) => Ok(x),
        None => Err(BeefyClientError::DecodingError),
    }
}

/// What a read of a value held as it is gives: the value, or a read error
/// where nothing is held.
pub open spec fn held_read<T>(v: Option<T>) -> Result<T, BeefyClientError> {
    match v {
        Some(x) => Ok(x),
        None => Err(BeefyClientError::StorageReadError),
    }
}

/// Read access to the client's state. `stored_*` is what the storage holds;
/// `None` where nothing was stored yet.
pub trait StorageRead {
    spec fn stored_mmr_state(&self) -> Option<MmrState>;

    spec fn stored_authority_set(&self) -> Option<AuthoritySet>;

    fn mmr_state(&self) -> (r: Result<MmrState, BeefyClientError>)
        ensures
            r matches Ok(s) ==> self.stored_mmr_state() == Some(s),
            self.stored_mmr_state() is None ==> r is Err,
            r matches Err(e) ==> is_read_error(e),
    ;

    fn authority_set(&self) -> (r: Result<AuthoritySet, BeefyClientError>)
        ensures
            r matches Ok(s) ==> self.stored_authority_set() == Some(s),
            self.stored_authority_set() is None ==> r is Err,
            r matches Err(e) ==> is_read_error(e),
    ;
    /// Whether an MMR state is stored, told apart from a failed read.
    fn has_mmr_state(&self) -> (r: Result<bool, BeefyClientError>)
        ensures
            r matches Ok(b) ==> b == self.stored_mmr_state() is Some,
            r matches Err(e) ==> is_read_error(e),
    ;
}

/// Write access to the client's state. A write that fails changes nothing.
pub trait StorageWrite: StorageRead {
    fn set_mmr_state(&mut self, mmr_state: MmrState) -> (r: Result<(), BeefyClientError>)
        ensures
            r is Ok ==> final(self).stored_mmr_state() == Some(mmr_state),
            r is Err ==> final(self).stored_mmr_state() == old(self).stored_mmr_state(),
            final(self).stored_authority_set() == old(self).stored_authority_set(),
    ;

    fn set_authority_set(&mut self, set: AuthoritySet) -> (r: Result<(), BeefyClientError>)
        ensures
            r is Ok ==> final(self).stored_authority_set() == Some(set),
            r is Err ==> final(self).stored_authority_set() == old(self).stored_authority_set(),
            final(self).stored_mmr_state() == old(self).stored_mmr_state(),
    ;

    /// Stores both values at once: either both are stored or neither changes.
    fn commit(&mut self, mmr_state: MmrState, set: AuthoritySet) -> (r: Result<(), BeefyClientError>)
        ensures
            r is Ok ==> final(self).stored_mmr_state() == Some(mmr_state)
                && final(self).stored_authority_set() == Some(set),
            r is Err ==> final(self).stored_mmr_state() == old(self).stored_mmr_state()
                && final(self).stored_authority_set() == old(self).stored_authority_set(),
            r matches Err(e) ==> e == BeefyClientError::StorageWriteError,
    ;
}

/// Storage held in memory.
#[derive(Clone, Copy, Debug, PartialEq, Eq)]
pub struct InMemoryStore {
    pub mmr_state: Option<MmrState>,
    pub authority_set: Option<AuthoritySet>,
}

impl InMemoryStore {
    /// A store that holds nothing yet.
    pub fn new() -> (r: Self)
        ensures
            r.mmr_state is None,
            r.authority_set is None,
    {
        InMemoryStore { mmr_state: None, authority_set: None }
    }
}

impl StorageRead for InMemoryStore {
    open spec fn stored_mmr_state(&self) -> Option<MmrState> {
        self.mmr_state
    }

    open spec fn stored_authority_set(&self) -> Option<AuthoritySet> {
        self.authority_set
    }

    fn mmr_state(&self) -> (r: Result<MmrState, BeefyClientError>)
        ensures
            r == held_read(self.mmr_state),
    {
        match self.mmr_state {
            Some(s) => Ok(s),
            None => Err(BeefyClientError::StorageReadError),
        }
    }

    fn authority_set(&self) -> (r: Result<AuthoritySet, BeefyClientError>)
        ensures
            r == held_read(self.authority_set),
    {
        match self.authority_set {
            Some(s) => Ok(s),
            None => Err(BeefyClientError::StorageReadError),
        }
    }

    fn has_mmr_state(&self) -> (r: Result<bool, BeefyClientError>)
        ensures
            r == Ok::<bool, BeefyClientError>(self.mmr_state is Some),
    {
        Ok(self.mmr_state.is_some())
    }
}

impl StorageWrite for InMemoryStore {
    fn set_mmr_state(&mut self, mmr_state: MmrState) -> (r: Result<(), BeefyClientError>)
        ensures
            r is Ok,
            final(self).mmr_state == Some(mmr_state),
            final(self).authority_set == old(self).authority_set,
    {
        self.mmr_state = Some(mmr_state);
        Ok(())
    }

    fn set_authority_set(&mut self, set: AuthoritySet) -> (r: Result<(), BeefyClientError>)
        ensures
            r is Ok,
            final(self).authority_set == Some(set),
            final(self).mmr_state == old(self).mmr_state,
    {
        self.authority_set = Some(set);
        Ok(())
    }

    fn commit(&mut self, mmr_state: MmrState, set: AuthoritySet) -> (r: Result<(), BeefyClientError>)
        ensures
            r is Ok,
            final(self).mmr_state == Some(mmr_state),
            final(self).authority_set == Some(set),
    {
        self.mmr_state = Some(mmr_state);
        self.authority_set = Some(set);
        Ok(())
    }
}

/// The MMR state that stored bytes encode, if they encode one.
pub open spec fn mmr_state_of(bytes: Seq<u8>) -> Option<MmrState> {
    if exists|s: MmrState| #[trigger] mmr_state_bytes(s) == bytes {
        Some(choose|s: MmrState| #[trigger] mmr_state_bytes(s) == bytes)
    } else {
        None
    }
}

/// The authority sets that stored bytes encode, if they encode them.
pub open spec fn authority_sets_of(bytes: Seq<u8>) -> Option<AuthoritySet> {
    if exists|s: AuthoritySet| #[trigger] authority_sets_bytes(s) == bytes {
        Some(choose|s: AuthoritySet| #[trigger] authority_sets_bytes(s) == bytes)
    } else {
        None
    }
}

proof fn lemma_mmr_state_of(s: MmrState)
    ensures
        mmr_state_of(mmr_state_bytes(s)) == Some(s),
{
    let c = choose|c: MmrState| #[trigger] mmr_state_bytes(c) == mmr_state_bytes(s);
    lemma_mmr_state_round_trip(s, c);
}

proof fn lemma_authority_sets_of(s: AuthoritySet)
    ensures
        authority_sets_of(authority_sets_bytes(s)) == Some(s),
{
    let c = choose|c: AuthoritySet| #[trigger] authority_sets_bytes(c) == authority_sets_bytes(s);
    lemma_authority_sets_round_trip(s, c);
}

/// Storage that holds the two values as their SCALE encodings, under the keys
/// `mmr_state` and `authority_set`. Bytes that do not decode are read as a
/// decoding error.
#[derive(Clone, Debug, PartialEq, Eq)]
pub struct EncodedStore {
    pub mmr_state: Option<Vec<u8>>,
    pub authority_set: Option<Vec<u8>>,
}

impl EncodedStore {
    /// A store that holds nothing yet.
    pub fn new() -> (r: Self)
        ensures
            r.mmr_state is None,
            r.authority_set is None,
    {
        EncodedStore { mmr_state: None, authority_set: None }
    }
}

impl StorageRead for EncodedStore {
    open spec fn stored_mmr_state(&self) -> Option<MmrState> {
        match self.mmr_state {
            Some(b) => mmr_state_of(b@),
            None => None,
        }
    }

    open spec fn stored_authority_set(&self) -> Option<AuthoritySet> {
        match self.authority_set {
            Some(b) => authority_sets_of(b@),
            None => None,
        }
    }

    fn mmr_state(&self) -> (r: Result<MmrState, BeefyClientError>)
        ensures
            self.mmr_state is None ==> r == Err::<MmrState, BeefyClientError>(
                BeefyClientError::StorageReadError,
            ),
            self.mmr_state matches Some(b) ==> r == decoded_read(mmr_state_of(b@)),
    {
        match &self.mmr_state {
            Some(b) => match decode_mmr_state(b.as_slice()) {
                Some(s) => {
                    proof {
                        lemma_mmr_state_of(s);
                    }
                    Ok(s)
                },
                None => {
                    proof {
                        assert forall|s: MmrState| #[trigger] mmr_state_bytes(s) != b@ by {
                            lemma_mmr_state_bytes_len(s);
                        }
                    }
                    Err(BeefyClientError::DecodingError)
                },
            },
            None => Err(BeefyClientError::StorageReadError),
        }
    }

    fn authority_set(&self) -> (r: Result<AuthoritySet, BeefyClientError>)
        ensures
            self.authority_set is None ==> r == Err::<AuthoritySet, BeefyClientError>(
                BeefyClientError::StorageReadError,
            ),
            self.authority_set matches Some(b) ==> r == decoded_read(authority_sets_of(b@)),
    {
        match &self.authority_set {
            Some(b) => match decode_authority_sets(b.as_slice()) {
                Some(s) => {
                    proof {
                        lemma_authority_sets_of(s);
                    }
                    Ok(s)
                },
                None => {
                    proof {
                        assert forall|s: AuthoritySet| #[trigger] authority_sets_bytes(s) != b@ by {
                            lemma_authority_sets_bytes_len(s);
                        }
                    }
                    Err(BeefyClientError::DecodingError)
                },
            },
            None => Err(BeefyClientError::StorageReadError),
        }
    }

    fn has_mmr_state(&self) -> (r: Result<bool, BeefyClientError>)
        ensures
            self.mmr_state is None ==> r == Ok::<bool, BeefyClientError>(false),
            self.mmr_state matches Some(b) ==> r == match mmr_state_of(b@) {
                Some(_) => Ok::<bool, BeefyClientError>(true),
                None => Err(BeefyClientError::DecodingError),
            },
    {
        match self.mmr_state() {
            Ok(_) => Ok(true),
            Err(BeefyClientError::StorageReadError) => Ok(false),
            Err(_) => Err(BeefyClientError::DecodingError),
        }
    }
}

impl StorageWrite for EncodedStore {
    fn set_mmr_state(&mut self, mmr_state: MmrState) -> (r: Result<(), BeefyClientError>)
        ensures
            r is Ok,
            final(self).mmr_state matches Some(b) && b@ == mmr_state_bytes(mmr_state),
            final(self).authority_set == old(self).authority_set,
    {
        proof {
            lemma_mmr_state_of(mmr_state);
        }
        self.mmr_state = Some(encode_mmr_state(&mmr_state));
        Ok(())
    }

    fn set_authority_set(&mut self, set: AuthoritySet) -> (r: Result<(), BeefyClientError>)
        ensures
            r is Ok,
            final(self).authority_set matches Some(b) && b@ == authority_sets_bytes(set),
            final(self).mmr_state == old(self).mmr_state,
    {
        proof {
            lemma_authority_sets_of(set);
        }
        self.authority_set = Some(encode_authority_sets(&set));
        Ok(())
    }

    fn commit(&mut self, mmr_state: MmrState, set: AuthoritySet) -> (r: Result<(), BeefyClientError>)
        ensures
            r is Ok,
            final(self).mmr_state matches Some(b) && b@ == mmr_state_bytes(mmr_state),
            final(self).authority_set matches Some(b) && b@ == authority_sets_bytes(set),
    {
        proof {
            lemma_mmr_state_of(mmr_state);
            lemma_authority_sets_of(set);
        }
        let state_bytes = encode_mmr_state(&mmr_state);
        let set_bytes = encode_authority_sets(&set);
        self.mmr_state = Some(state_bytes);
        self.authority_set = Some(set_bytes);
        Ok(())
    }
}

} // verus!
