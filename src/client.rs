//! Ingestion of MMR updates: the checks that an update must pass, in order, and
//! the state that it leaves behind.
use vstd::prelude::*;

use crate::bytes::to_h256;
use crate::error::BeefyClientError;
use crate::host::{
    beefy_address_of, eth_address, keccak, keccak_256, recovered_key,
    secp256k1_ecdsa_recover_compressed,
};
use crate::merkle::{hashes_view, merkle_proof_valid, nodes_view, verify_merkle_proof, NodeView};
use crate::mmr::{mmr_proof_valid, verify_mmr_leaf_proof};
use crate::primitives::{
    BeefyNextAuthoritySet, Commitment, MmrUpdateProof, H256, HASH_LENGTH, MMR_ROOT_ID,
    SIGNATURE_LEN,
};
use crate::scale::{
    commitment_bytes, commitment_encodable, encode_commitment, encode_mmr_leaf, lemma_hash_eq,
    mmr_leaf_bytes,
};
use crate::traits::{is_read_error, AuthoritySet, MmrState, StorageRead, StorageWrite};

verus! {

/// The least number of signatures that a set of `set.len` authorities needs:
/// more than two thirds.
pub open spec fn threshold(set: BeefyNextAuthoritySet) -> int {
    (2 * set.len) / 3 + 1
}

/// The position of the first payload entry with id `id`, from position `i` on.
pub open spec fn first_entry(items: Seq<([u8; 2], Vec<u8>)>, id: Seq<u8>, i: int) -> Option<int>
    decreases items.len() - i,
{
    if i < 0 || i >= items.len() {
        None
    } else if items[i].0@ == id {
        Some(i)
    } else {
        first_entry(items, id, i + 1)
    }
}

/// Where `first_entry` finds an entry, it lies at or after `i` and has the id.
pub proof fn lemma_first_entry(items: Seq<([u8; 2], Vec<u8>)>, id: Seq<u8>, i: int)
    ensures
        first_entry(items, id, i) matches Some(j) ==> i <= j < items.len() && items[j].0@ == id,
    decreases items.len() - i,
{
    if 0 <= i < items.len() && items[i].0@ != id {
        lemma_first_entry(items, id, i + 1);
    }
}

/// The value of the first payload entry with id `id`.
pub open spec fn payload_value(items: Seq<([u8; 2], Vec<u8>)>, id: Seq<u8>) -> Option<Seq<u8>> {
    match first_entry(items, id, 0) {
        Some(j) => Some(items[j].1@),
        None => None,
    }
}

/// The authority leaf of a signer: the Keccak digest of its address.
pub open spec fn authority_leaf(pk: Seq<u8>) -> Seq<u8> {
    keccak(eth_address(pk))
}

/// Puts `node` in front of the leaves of the later signatures.
pub open spec fn prepend_leaf(node: NodeView, rest: Option<Seq<NodeView>>) -> Option<Seq<NodeView>> {
    match rest {
        Some(leaves) => Some(seq![node] + leaves),
        None => None,
    }
}

/// The authority leaves of the signatures from position `i` on, each at the
/// signer's position, in order; signatures that are absent or not 65 bytes long
/// are passed over. `None` where a key cannot be recovered.
pub open spec fn signer_leaves(sigs: Seq<Option<Vec<u8>>>, msg: Seq<u8>, i: int) -> Option<
    Seq<NodeView>,
>
    decreases sigs.len() - i,
{
    if i < 0 || i >= sigs.len() {
        Some(Seq::empty())
    } else {
        match sigs[i] {
            Some(sig) => if sig@.len() == 65 {
                match recovered_key(sig@, msg) {
                    Some(pk) => prepend_leaf((i, authority_leaf(pk)), signer_leaves(sigs, msg, i + 1)),
                    None => None,
                }
            } else {
                signer_leaves(sigs, msg, i + 1)
            },
            None => signer_leaves(sigs, msg, i + 1),
        }
    }
}

/// What a successful update leaves: the authority sets, the latest height and
/// the latest MMR root.
pub type Committed = (AuthoritySet, u32, Seq<u8>);

/// The last stages: the MMR proof, the id of the set that a rotating leaf
/// announces (one above the next set's), and the new state. `rotate` says whether
/// the next set signed; `root` is the MMR root of the payload.
pub open spec fn outcome_after_height(
    u: MmrUpdateProof,
    set: AuthoritySet,
    rotate: bool,
    root: Seq<u8>,
) -> Result<Committed, BeefyClientError> {
    let c = u.signed_commitment.commitment;
    let leaf = u.latest_mmr_leaf_with_index;
    if !mmr_proof_valid(
        root,
        keccak(mmr_leaf_bytes(leaf.leaf)),
        hashes_view(u.mmr_proof@),
        leaf.index,
    ) {
        Err(BeefyClientError::InvalidMmrProof)
    } else if rotate && leaf.leaf.beefy_next_authority_set.id != set.next_authorities.id + 1 {
        Err(BeefyClientError::InvalidMmrUpdate)
    } else {
        let new_set = if rotate {
            AuthoritySet {
                current_authorities: set.next_authorities,
                next_authorities: leaf.leaf.beefy_next_authority_set,
            }
        } else {
            set
        };
        Ok((new_set, c.block_number, root))
    }
}

/// The stages after the authority proof: the block must be newer than the
/// latest one seen.
pub open spec fn outcome_after_authorities(
    u: MmrUpdateProof,
    set: AuthoritySet,
    state: MmrState,
    rotate: bool,
    root: Seq<u8>,
) -> Result<Committed, BeefyClientError> {
    if u.signed_commitment.commitment.block_number <= state.latest_beefy_height {
        Err(BeefyClientError::InvalidMmrUpdate)
    } else {
        outcome_after_height(u, set, rotate, root)
    }
}

/// The set whose members must have signed.
pub open spec fn active_set(set: AuthoritySet, rotate: bool) -> BeefyNextAuthoritySet {
    if rotate {
        set.next_authorities
    } else {
        set.current_authorities
    }
}

/// The stages after the signing set is chosen: the MMR root in the payload,
/// the signatures, the number of signers recovered, which must reach the
/// active set's threshold, and the authority proof.
pub open spec fn outcome_after_selection(
    u: MmrUpdateProof,
    set: AuthoritySet,
    state: MmrState,
    rotate: bool,
) -> Result<Committed, BeefyClientError> {
    let c = u.signed_commitment.commitment;
    match payload_value(c.payload@, MMR_ROOT_ID@) {
        None => Err(BeefyClientError::InvalidMmrUpdate),
        Some(root) => if root.len() != 32 {
            Err(BeefyClientError::InvalidRootHash)
        } else if !commitment_encodable(c) {
            Err(BeefyClientError::DecodingError)
        } else {
            match signer_leaves(u.signed_commitment.signatures@, keccak(commitment_bytes(c)), 0) {
                None => Err(BeefyClientError::InvalidSignature),
                Some(leaves) => {
                    let active = active_set(set, rotate);
                    if leaves.len() < threshold(active) {
                        Err(BeefyClientError::InvalidMmrUpdate)
                    } else if !merkle_proof_valid(
                        active.root@,
                        leaves,
                        hashes_view(u.authority_proof@),
                        active.len as int,
                    ) {
                        Err(BeefyClientError::InvalidAuthorityProof)
                    } else {
                        outcome_after_authorities(u, set, state, rotate, root)
                    }
                },
            }
        },
    }
}

/// The stages after the threshold: which set signed.
pub open spec fn outcome_after_threshold(u: MmrUpdateProof, set: AuthoritySet, state: MmrState) -> Result<
    Committed,
    BeefyClientError,
> {
    let vsid = u.signed_commitment.commitment.validator_set_id;
    if vsid == set.current_authorities.id {
        outcome_after_selection(u, set, state, false)
    } else if vsid == set.next_authorities.id {
        outcome_after_selection(u, set, state, true)
    } else {
        Err(BeefyClientError::InvalidMmrUpdate)
    }
}

/// What ingesting the update `u` does to the state `(set, state)`: the new
/// state, or the first check that failed.
pub open spec fn update_outcome(u: MmrUpdateProof, set: AuthoritySet, state: MmrState) -> Result<
    Committed,
    BeefyClientError,
> {
    let n = u.signed_commitment.signatures@.len();
    if n < threshold(set.current_authorities) && n < threshold(set.next_authorities) {
        Err(BeefyClientError::InvalidMmrUpdate)
    } else {
        outcome_after_threshold(u, set, state)
    }
}

/// The executable result `r` is the outcome `o`.
pub open spec fn result_is(
    r: Result<(AuthoritySet, MmrState), BeefyClientError>,
    o: Result<Committed, BeefyClientError>,
) -> bool {
    match o {
        Ok((set, height, root)) => r matches Ok((s, st)) && s == set && st.latest_beefy_height
            == height && st.mmr_root_hash@ == root,
        Err(e) => r == Err::<(AuthoritySet, MmrState), BeefyClientError>(e),
    }
}

/// The least number of signatures that `set` needs.
pub fn authority_threshold(set: &BeefyNextAuthoritySet) -> (r: u64)
    ensures
        r == threshold(*set),
{
    (2 * set.len as u64) / 3 + 1
}

/// Whether `sigs_len` signature slots reach the threshold of `set`.
pub fn validate_sigs_against_threshold(set: &BeefyNextAuthoritySet, sigs_len: usize) -> (r: bool)
    ensures
        r == (sigs_len >= threshold(*set)),
{
    sigs_len as u64 >= authority_threshold(set)
}

/// The position of the first payload entry with id `id`.
pub fn find_payload(items: &Vec<([u8; 2], Vec<u8>)>, id: &[u8; 2]) -> (r: Option<usize>)
    ensures
        match first_entry(items@, id@, 0) {
            Some(j) => r matches Some(k) && k as int == j,
            None => r is None,
        },
        r matches Some(k) ==> k < items@.len(),
{
    proof {
        lemma_first_entry(items@, id@, 0);
    }
    let mut i: usize = 0;
    while i < items.len()
        invariant
            i <= items@.len(),
            first_entry(items@, id@, 0) == first_entry(items@, id@, i as int),
        decreases items@.len() - i,
    {
        let entry_id: &[u8; 2] = &items[i].0;
        if entry_id[0] == id[0] && entry_id[1] == id[1] {
            assert(items@[i as int].0@ =~= id@);
            return Some(i);
        }
        assert(items@[i as int].0@[0] != id@[0] || items@[i as int].0@[1] != id@[1]);
        i = i + 1;
    }
    None
}

/// Recovers the signers of `msg` and returns their authority leaves.
pub fn collect_signer_leaves(sigs: &Vec<Option<Vec<u8>>>, msg: &H256) -> (r: Option<
    Vec<(usize, H256)>,
>)
    ensures
        match signer_leaves(sigs@, msg@, 0) {
            Some(leaves) => r matches Some(v) && nodes_view(v@) == leaves,
            None => r is None,
        },
{
    let mut out: Vec<(usize, H256)> = Vec::new();
    let mut i: usize = 0;
    while i < sigs.len()
        invariant
            i <= sigs@.len(),
            signer_leaves(sigs@, msg@, 0) == match signer_leaves(sigs@, msg@, i as int) {
                Some(rest) => Some(nodes_view(out@) + rest),
                None => None,
            },
        decreases sigs@.len() - i,
    {
        let ghost before = out@;
        match &sigs[i] {
            Some(sig) => {
                if sig.len() == SIGNATURE_LEN {
                    match secp256k1_ecdsa_recover_compressed(sig.as_slice(), msg) {
                        Some(pk) => {
                            let address = beefy_address_of(&pk);
                            let leaf = keccak_256(address.as_slice());
                            out.push((i, leaf));
                            proof {
                                assert(nodes_view(out@) =~= nodes_view(before).push(
                                    (i as int, leaf@),
                                ));
                                match signer_leaves(sigs@, msg@, i + 1) {
                                    Some(rest) => {
                                        assert(nodes_view(before) + (seq![(i as int, leaf@)]
                                            + rest) =~= nodes_view(out@) + rest);
                                    },
                                    None => {},
                                }
                            }
                        },
                        None => {
                            return None;
                        },
                    }
                }
            },
            None => {},
        }
        i = i + 1;
    }
    assert(nodes_view(out@) + Seq::<NodeView>::empty() =~= nodes_view(out@));
    Some(out)
}

/// Whether every length in the commitment fits in 32 bits.
pub fn commitment_fits(c: &Commitment) -> (r: bool)
    ensures
        r == commitment_encodable(*c),
{
    if c.payload.len() > u32::MAX as usize {
        return false;
    }
    let mut k: usize = 0;
    while k < c.payload.len()
        invariant
            k <= c.payload@.len() <= u32::MAX,
            forall|j: int| 0 <= j < k ==> #[trigger] c.payload@[j].1@.len() <= u32::MAX,
        decreases c.payload@.len() - k,
    {
        if c.payload[k].1.len() > u32::MAX as usize {
            return false;
        }
        k = k + 1;
    }
    true
}

/// Checks the update `u` against the state `(set, state)` and returns the state
/// that it leads to, or the first check that failed.
pub fn verify_mmr_update(u: &MmrUpdateProof, set: &AuthoritySet, state: &MmrState) -> (r: Result<
    (AuthoritySet, MmrState),
    BeefyClientError,
>)
    ensures
        result_is(r, update_outcome(*u, *set, *state)),
{
    let current = set.current_authorities;
    let next = set.next_authorities;
    let c: &Commitment = &u.signed_commitment.commitment;
    let signatures_len = u.signed_commitment.signatures.len();
    if !validate_sigs_against_threshold(&current, signatures_len) && !validate_sigs_against_threshold(
        &next,
        signatures_len,
    ) {
        return Err(BeefyClientError::InvalidMmrUpdate);
    }
    let rotate: bool;
    if c.validator_set_id == current.id {
        rotate = false;
    } else if c.validator_set_id == next.id {
        rotate = true;
    } else {
        return Err(BeefyClientError::InvalidMmrUpdate);
    }
    let id: [u8; 2] = MMR_ROOT_ID;
    let j: usize = match find_payload(&c.payload, &id) {
        Some(j) => j,
        None => {
            return Err(BeefyClientError::InvalidMmrUpdate);
        },
    };
    let root_vec: &Vec<u8> = &c.payload[j].1;
    if root_vec.len() != HASH_LENGTH {
        return Err(BeefyClientError::InvalidRootHash);
    }
    let mmr_root: H256 = to_h256(root_vec.as_slice());
    if !commitment_fits(c) {
        return Err(BeefyClientError::DecodingError);
    }
    let encoded = encode_commitment(c);
    let commitment_hash = keccak_256(encoded.as_slice());
    let leaves = match collect_signer_leaves(&u.signed_commitment.signatures, &commitment_hash) {
        Some(v) => v,
        None => {
            return Err(BeefyClientError::InvalidSignature);
        },
    };
    let active = if rotate {
        next
    } else {
        current
    };
    if (leaves.len() as u64) < authority_threshold(&active) {
        return Err(BeefyClientError::InvalidMmrUpdate);
    }
    if !verify_merkle_proof(&active.root, &leaves, &u.authority_proof, active.len as usize) {
        return Err(BeefyClientError::InvalidAuthorityProof);
    }
    if c.block_number <= state.latest_beefy_height {
        return Err(BeefyClientError::InvalidMmrUpdate);
    }
    let leaf_with_index = u.latest_mmr_leaf_with_index;
    let leaf_bytes = encode_mmr_leaf(&leaf_with_index.leaf);
    let leaf_hash = keccak_256(leaf_bytes.as_slice());
    if !verify_mmr_leaf_proof(&mmr_root, &leaf_hash, &u.mmr_proof, leaf_with_index.index) {
        return Err(BeefyClientError::InvalidMmrProof);
    }
    if rotate && (next.id == u64::MAX || leaf_with_index.leaf.beefy_next_authority_set.id != next.id
        + 1) {
        return Err(BeefyClientError::InvalidMmrUpdate);
    }
    let new_set = if rotate {
        AuthoritySet {
            current_authorities: next,
            next_authorities: leaf_with_index.leaf.beefy_next_authority_set,
        }
    } else {
        *set
    };
    Ok((new_set, MmrState { latest_beefy_height: c.block_number, mmr_root_hash: mmr_root }))
}

/// A successful update raises the latest height.
pub proof fn lemma_success_advances_height(u: MmrUpdateProof, set: AuthoritySet, state: MmrState)
    ensures
        update_outcome(u, set, state) matches Ok((_, height, _)) ==> height
            > state.latest_beefy_height,
{
}

/// A successful update keeps the next set's id one above the current set's id.
pub proof fn lemma_success_keeps_set_order(u: MmrUpdateProof, set: AuthoritySet, state: MmrState)
    requires
        set.well_formed(),
    ensures
        update_outcome(u, set, state) matches Ok((new_set, _, _)) ==> new_set.well_formed(),
{
}

/// Checking an update is a function of the update and the state alone: two
/// results that `verify_mmr_update` may give for the same inputs are equal.
pub proof fn lemma_verify_is_pure(
    u: MmrUpdateProof,
    set: AuthoritySet,
    state: MmrState,
    r1: Result<(AuthoritySet, MmrState), BeefyClientError>,
    r2: Result<(AuthoritySet, MmrState), BeefyClientError>,
)
    requires
        result_is(r1, update_outcome(u, set, state)),
        result_is(r2, update_outcome(u, set, state)),
    ensures
        r1 == r2,
{
    if let (Ok((_, st1)), Ok((_, st2))) = (r1, r2) {
        lemma_hash_eq(st1.mmr_root_hash, st2.mmr_root_hash);
    }
}

/// As many signature slots as the current set's threshold pass the threshold
/// check; fewer than both thresholds are rejected.
pub proof fn lemma_threshold_boundary(u: MmrUpdateProof, set: AuthoritySet, state: MmrState)
    ensures
        u.signed_commitment.signatures@.len() >= threshold(set.current_authorities) ==> update_outcome(
            u,
            set,
            state,
        ) == outcome_after_threshold(u, set, state),
        u.signed_commitment.signatures@.len() < threshold(set.current_authorities)
            && u.signed_commitment.signatures@.len() < threshold(set.next_authorities)
            ==> update_outcome(u, set, state) == Err::<Committed, BeefyClientError>(
            BeefyClientError::InvalidMmrUpdate,
        ),
{
}

/// A block no newer than the latest one is rejected; the block right after it
/// passes the height check.
pub proof fn lemma_height_boundary(
    u: MmrUpdateProof,
    set: AuthoritySet,
    state: MmrState,
    rotate: bool,
    root: Seq<u8>,
)
    ensures
        u.signed_commitment.commitment.block_number <= state.latest_beefy_height ==> update_outcome(
            u,
            set,
            state,
        ) is Err,
        u.signed_commitment.commitment.block_number == state.latest_beefy_height + 1
            ==> outcome_after_authorities(u, set, state, rotate, root) == outcome_after_height(
            u,
            set,
            rotate,
            root,
        ),
{
}

/// An update signed for a set that is neither the current nor the next one is
/// rejected.
pub proof fn lemma_unknown_set_rejected(u: MmrUpdateProof, set: AuthoritySet, state: MmrState)
    requires
        u.signed_commitment.commitment.validator_set_id != set.current_authorities.id,
        u.signed_commitment.commitment.validator_set_id != set.next_authorities.id,
    ensures
        update_outcome(u, set, state) == Err::<Committed, BeefyClientError>(
            BeefyClientError::InvalidMmrUpdate,
        ),
{
}

/// An update whose payload has no MMR root entry is rejected.
pub proof fn lemma_missing_root_rejected(u: MmrUpdateProof, set: AuthoritySet, state: MmrState)
    requires
        forall|j: int|
            0 <= j < u.signed_commitment.commitment.payload@.len()
                ==> #[trigger] u.signed_commitment.commitment.payload@[j].0@ != MMR_ROOT_ID@,
    ensures
        update_outcome(u, set, state) == Err::<Committed, BeefyClientError>(
            BeefyClientError::InvalidMmrUpdate,
        ),
{
    lemma_no_entry(u.signed_commitment.commitment.payload@, MMR_ROOT_ID@, 0);
}

proof fn lemma_no_entry(items: Seq<([u8; 2], Vec<u8>)>, id: Seq<u8>, i: int)
    requires
        forall|j: int| 0 <= j < items.len() ==> #[trigger] items[j].0@ != id,
    ensures
        first_entry(items, id, i) is None,
    decreases items.len() - i,
{
    if 0 <= i < items.len() {
        lemma_no_entry(items, id, i + 1);
    }
}

/// Of several entries with the MMR root id, the first one counts: a successful
/// update stores the value of the entry at `j` when no earlier entry has the id.
pub proof fn lemma_first_root_entry_counts(
    u: MmrUpdateProof,
    set: AuthoritySet,
    state: MmrState,
    j: int,
)
    requires
        0 <= j < u.signed_commitment.commitment.payload@.len(),
        u.signed_commitment.commitment.payload@[j].0@ == MMR_ROOT_ID@,
        forall|k: int|
            0 <= k < j ==> #[trigger] u.signed_commitment.commitment.payload@[k].0@
                != MMR_ROOT_ID@,
    ensures
        payload_value(u.signed_commitment.commitment.payload@, MMR_ROOT_ID@) == Some(
            u.signed_commitment.commitment.payload@[j].1@,
        ),
        update_outcome(u, set, state) matches Ok((_, _, root)) ==> root
            == u.signed_commitment.commitment.payload@[j].1@,
{
    lemma_first_entry_at(u.signed_commitment.commitment.payload@, MMR_ROOT_ID@, 0, j);
}

proof fn lemma_first_entry_at(items: Seq<([u8; 2], Vec<u8>)>, id: Seq<u8>, i: int, j: int)
    requires
        0 <= i <= j < items.len(),
        items[j].0@ == id,
        forall|k: int| 0 <= k < j ==> #[trigger] items[k].0@ != id,
    ensures
        first_entry(items, id, i) == Some(j),
    decreases j - i,
{
    if i < j {
        lemma_first_entry_at(items, id, i + 1, j);
    }
}

/// The latest height that initialisation at `activation` stores.
pub open spec fn initial_height(activation: u32) -> u32 {
    if activation == 0 {
        0
    } else {
        (activation - 1) as u32
    }
}

/// The outcome of `u` on the stored state, where both of its parts are stored.
pub open spec fn stored_outcome(
    set: Option<AuthoritySet>,
    state: Option<MmrState>,
    u: MmrUpdateProof,
) -> Option<Result<Committed, BeefyClientError>> {
    match (set, state) {
        (Some(a), Some(m)) => Some(update_outcome(u, a, m)),
        _ => None,
    }
}

/// The outcome of `u` on what `store` holds.
pub open spec fn outcome_on<T: StorageRead>(store: T, u: MmrUpdateProof) -> Option<
    Result<Committed, BeefyClientError>,
> {
    stored_outcome(store.stored_authority_set(), store.stored_mmr_state(), u)
}

/// `store` holds the committed state.
pub open spec fn holds_committed<T: StorageRead>(store: T, c: Committed) -> bool {
    &&& store.stored_authority_set() == Some(c.0)
    &&& store.stored_mmr_state() matches Some(st)
    &&& st.latest_beefy_height == c.1
    &&& st.mmr_root_hash@ == c.2
}

/// Both stores hold the same state.
pub open spec fn same_state<T: StorageRead>(a: T, b: T) -> bool {
    &&& a.stored_authority_set() == b.stored_authority_set()
    &&& a.stored_mmr_state() == b.stored_mmr_state()
}

/// `after` holds a greater latest height than `before`.
pub open spec fn height_advanced<T: StorageRead>(before: T, after: T) -> bool {
    &&& before.stored_mmr_state() matches Some(b)
    &&& after.stored_mmr_state() matches Some(a)
    &&& a.latest_beefy_height > b.latest_beefy_height
}

/// `state` is what initialisation at `activation` stores: the height before
/// activation and a zero root.
pub open spec fn holds_initial(state: Option<MmrState>, activation: u32) -> bool {
    &&& state matches Some(st)
    &&& st.latest_beefy_height == initial_height(activation)
    &&& st.mmr_root_hash@ == Seq::new(32, |_i: int| 0u8)
}

/// `store` holds authority sets, the next one following the current one.
pub open spec fn authority_order_kept<T: StorageRead>(store: T) -> bool {
    store.stored_authority_set() matches Some(s) && s.well_formed()
}

/// The call failed because the state could not be read.
pub open spec fn read_failed(r: Result<(), BeefyClientError>) -> bool {
    match r {
        Err(e) => is_read_error(e),
        Ok(()) => false,
    }
}

/// Whether initialisation may go on, given whether an MMR state is stored: not
/// where one is, nor where its presence could not be read.
pub fn initialisation_allowed(present: Result<bool, BeefyClientError>) -> (r: Result<(), BeefyClientError>)
    ensures
        r == match present {
            Ok(true) => Err(BeefyClientError::AlreadyInitialised),
            Ok(false) => Ok(()),
            Err(e) => Err::<(), BeefyClientError>(e),
        },
{
    match present {
        Ok(true) => Err(BeefyClientError::AlreadyInitialised),
        Ok(false) => Ok(()),
        Err(e) => Err(e),
    }
}

/// A BEEFY light client over the storage `S`: it holds the latest MMR root and
/// the authority sets, and advances them with verified MMR updates.
pub struct BeefyLightClient<S> {
    pub store: S,
}

impl<S: StorageRead + StorageWrite> BeefyLightClient<S> {
    /// A client over the given storage.
    pub fn new(store: S) -> (r: Self)
        ensures
            r.store == store,
    {
        BeefyLightClient { store }
    }

    /// Starts tracking: stores the authority sets and, as the latest height,
    /// the block before `activation` (0 for an activation at block 0), with a
    /// zero MMR root, in one commit. Fails where an MMR state is stored, and
    /// where the presence of one cannot be read.
    pub fn initialise(&mut self, set: AuthoritySet, activation: u32) -> (r: Result<
        (),
        BeefyClientError,
    >)
        requires
            set.well_formed(),
        ensures
            old(self).store.stored_mmr_state() is Some ==> r is Err,
            r == Err::<(), BeefyClientError>(BeefyClientError::AlreadyInitialised) ==> old(self).store.stored_mmr_state() is Some,
            r is Err ==> same_state(final(self).store, old(self).store),
            r matches Err(e) ==> (e == BeefyClientError::AlreadyInitialised || is_read_error(e)
                || e == BeefyClientError::StorageWriteError),
            r is Ok ==> old(self).store.stored_mmr_state() is None,
            r is Ok ==> final(self).store.stored_authority_set() == Some(set),
            r is Ok ==> holds_initial(final(self).store.stored_mmr_state(), activation),
            r is Ok ==> authority_order_kept(final(self).store),
    {
        match initialisation_allowed(self.store.has_mmr_state()) {
            Ok(()) => {},
            Err(e) => {
                return Err(e);
            },
        }
        let height: u32 = if activation == 0 {
            0
        } else {
            activation - 1
        };
        let root: H256 = [0u8; 32];
        assert(root@ =~= Seq::new(32, |_i: int| 0u8));
        self.store.commit(MmrState { latest_beefy_height: height, mmr_root_hash: root }, set)
    }

    /// Verifies the signed commitment and the proofs of `mmr_update` against the
    /// stored state, and on success stores the new MMR root and height, and the
    /// rotated authority sets where the next set signed, in one commit. A call
    /// that fails leaves the storage as it was.
    ///
    /// Besides the threshold on signature slots, the number of signers actually
    /// recovered must reach the active set's threshold (`InvalidMmrUpdate`
    /// otherwise), and a rotating update's leaf must announce the set whose id
    /// is one above the next set's (`InvalidMmrUpdate` otherwise), so that the
    /// stored sets keep their order.
    pub fn ingest_mmr_root_with_proof(&mut self, mmr_update: MmrUpdateProof) -> (r: Result<
        (),
        BeefyClientError,
    >)
        ensures
            r is Ok ==> (outcome_on(old(self).store, mmr_update) matches Some(Ok(c))
                && holds_committed(final(self).store, c)),
            r is Ok ==> height_advanced(old(self).store, final(self).store),
            outcome_on(old(self).store, mmr_update) matches Some(Err(e)) ==> (r == Err::<
                (),
                BeefyClientError,
            >(e) || read_failed(r)),
            r is Err ==> same_state(final(self).store, old(self).store),
            r matches Err(e) ==> (!is_read_error(e) && e != BeefyClientError::StorageWriteError
                ==> outcome_on(old(self).store, mmr_update) == Some(
                Err::<Committed, BeefyClientError>(e),
            )),
    {
        let set = match self.store.authority_set() {
            Ok(s) => s,
            Err(e) => {
                return Err(e);
            },
        };
        let state = match self.store.mmr_state() {
            Ok(s) => s,
            Err(e) => {
                return Err(e);
            },
        };
        let (new_set, new_state) = match verify_mmr_update(&mmr_update, &set, &state) {
            Ok(v) => v,
            Err(e) => {
                return Err(e);
            },
        };
        self.store.commit(new_state, new_set)
    }

    /// The latest height seen finalized.
    pub fn latest_height(&self) -> (r: Result<u32, BeefyClientError>)
        ensures
            r matches Ok(h) ==> self.store.stored_mmr_state() matches Some(s)
                && s.latest_beefy_height == h,
            self.store.stored_mmr_state() is None ==> r is Err,
            r matches Err(e) ==> is_read_error(e),
    {
        match self.store.mmr_state() {
            Ok(s) => Ok(s.latest_beefy_height),
            Err(e) => Err(e),
        }
    }

    /// The MMR root at the latest height.
    pub fn latest_mmr_root(&self) -> (r: Result<H256, BeefyClientError>)
        ensures
            r matches Ok(h) ==> self.store.stored_mmr_state() matches Some(s) && s.mmr_root_hash
                == h,
            self.store.stored_mmr_state() is None ==> r is Err,
            r matches Err(e) ==> is_read_error(e),
    {
        match self.store.mmr_state() {
            Ok(s) => Ok(s.mmr_root_hash),
            Err(e) => Err(e),
        }
    }

    /// The current and next authority sets.
    pub fn authority_sets(&self) -> (r: Result<AuthoritySet, BeefyClientError>)
        ensures
            r matches Ok(s) ==> self.store.stored_authority_set() == Some(s),
            self.store.stored_authority_set() is None ==> r is Err,
            r matches Err(e) ==> is_read_error(e),
    {
        self.store.authority_set()
    }
}

} // verus!
