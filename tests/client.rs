use beefy_light_client::client::{
    collect_signer_leaves, initialisation_allowed, find_payload, validate_sigs_against_threshold, verify_mmr_update,
    BeefyLightClient,
};
use beefy_light_client::error::BeefyClientError;
use beefy_light_client::host::beefy_address_of;
use beefy_light_client::primitives::{
    BeefyNextAuthoritySet, Commitment, MmrLeaf, MmrLeafWithIndex, MmrUpdateProof,
    SignedCommitment, MMR_ROOT_ID,
};
use beefy_light_client::relay::{packet_relay_status, set_relay_status, Mode, PacketRelay};
use beefy_light_client::scale::{encode_commitment, encode_mmr_leaf};
use beefy_light_client::traits::{
    AuthoritySet, EncodedStore, InMemoryStore, MmrState, StorageRead, StorageWrite,
};
use ckb_merkle_mountain_range::util::MemStore;
use ckb_merkle_mountain_range::{Merge, MMR};
use rs_merkle::{Hasher, MerkleTree};
use sp_core::{ecdsa, Pair};

#[derive(Clone)]
struct Keccak;

impl Hasher for Keccak {
    type Hash = [u8; 32];
    fn hash(data: &[u8]) -> [u8; 32] {
        sp_core_hashing::keccak_256(data)
    }
}

struct MergeKeccak;

impl Merge for MergeKeccak {
    type Item = [u8; 32];
    fn merge(left: &[u8; 32], right: &[u8; 32]) -> ckb_merkle_mountain_range::Result<[u8; 32]> {
        let mut buf = left.to_vec();
        buf.extend_from_slice(right);
        Ok(sp_core_hashing::keccak_256(&buf))
    }
}

fn sig_bytes(pair: &ecdsa::Pair, msg: &[u8; 32]) -> Vec<u8> {
    let sig = pair.sign_prehashed(msg);
    let raw: &[u8] = sig.as_ref();
    raw.to_vec()
}

fn key(seed: u8) -> ecdsa::Pair {
    ecdsa::Pair::from_seed_slice(&[seed; 32]).unwrap()
}

fn compressed(pair: &ecdsa::Pair) -> [u8; 33] {
    let public = pair.public();
    let bytes: &[u8] = public.as_ref();
    bytes.try_into().unwrap()
}

/// Ethereum address computed independently of the library.
fn eth_address(pair: &ecdsa::Pair) -> Vec<u8> {
    let pk = libsecp256k1::PublicKey::parse_compressed(&compressed(pair)).unwrap();
    sp_core_hashing::keccak_256(&pk.serialize()[1..])[12..].to_vec()
}

fn authority_root(keys: &[ecdsa::Pair]) -> [u8; 32] {
    let leaves: Vec<[u8; 32]> =
        keys.iter().map(|k| sp_core_hashing::keccak_256(&eth_address(k))).collect();
    MerkleTree::<Keccak>::from_leaves(&leaves).root().unwrap()
}

fn authority_proof(keys: &[ecdsa::Pair], indices: &[usize]) -> Vec<[u8; 32]> {
    let leaves: Vec<[u8; 32]> =
        keys.iter().map(|k| sp_core_hashing::keccak_256(&eth_address(k))).collect();
    MerkleTree::<Keccak>::from_leaves(&leaves).proof(indices).proof_hashes().to_vec()
}

fn set_a() -> Vec<ecdsa::Pair> {
    vec![key(1), key(2), key(3)]
}

fn set_b() -> Vec<ecdsa::Pair> {
    vec![key(4), key(5), key(6)]
}

fn set_c() -> Vec<ecdsa::Pair> {
    vec![key(7), key(8), key(9)]
}

fn initial_sets() -> AuthoritySet {
    AuthoritySet {
        current_authorities: BeefyNextAuthoritySet { id: 0, len: 3, root: authority_root(&set_a()) },
        next_authorities: BeefyNextAuthoritySet { id: 1, len: 3, root: authority_root(&set_b()) },
    }
}

/// The leaf at the tip of an MMR of `index + 1` leaves, that MMR's root, and
/// the proof of the leaf.
fn mmr_for(leaf: &MmrLeaf, index: u64) -> ([u8; 32], Vec<[u8; 32]>) {
    let store = MemStore::default();
    let mut mmr = MMR::<[u8; 32], MergeKeccak, _>::new(0, &store);
    for i in 0..index {
        mmr.push(sp_core_hashing::keccak_256(&i.to_le_bytes())).unwrap();
    }
    let pos = mmr.push(sp_core_hashing::keccak_256(&encode_mmr_leaf(leaf))).unwrap();
    let root = mmr.get_root().unwrap();
    let proof = mmr.gen_proof(vec![pos]).unwrap().proof_items().to_vec();
    (root, proof)
}

struct Update {
    proof: MmrUpdateProof,
    root: [u8; 32],
}

/// An update at `block` for the set `set_id`, signed by `signers` of `keys`
/// (positions), whose leaf announces `next`.
fn update(
    keys: &[ecdsa::Pair],
    signers: &[usize],
    set_id: u64,
    block: u32,
    next: BeefyNextAuthoritySet,
    index: u64,
) -> Update {
    let leaf = MmrLeaf {
        version: 0,
        parent_number_and_hash: (block - 1, [7u8; 32]),
        beefy_next_authority_set: next,
        parachain_heads: [9u8; 32],
    };
    let (root, mmr_proof) = mmr_for(&leaf, index);
    let commitment = Commitment {
        payload: vec![(MMR_ROOT_ID, root.to_vec())],
        block_number: block,
        validator_set_id: set_id,
    };
    let msg = sp_core_hashing::keccak_256(&encode_commitment(&commitment));
    let signatures = (0..keys.len())
        .map(|i| {
            if signers.contains(&i) {
                let sig = keys[i].sign_prehashed(&msg);
                let bytes: &[u8] = sig.as_ref();
                Some(bytes.to_vec())
            } else {
                None
            }
        })
        .collect();
    Update {
        proof: MmrUpdateProof {
            signed_commitment: SignedCommitment { commitment, signatures },
            latest_mmr_leaf_with_index: MmrLeafWithIndex { index, leaf },
            mmr_proof,
            authority_proof: authority_proof(keys, signers),
        },
        root,
    }
}

fn next_of_b() -> BeefyNextAuthoritySet {
    BeefyNextAuthoritySet { id: 1, len: 3, root: authority_root(&set_b()) }
}

fn next_of_c() -> BeefyNextAuthoritySet {
    BeefyNextAuthoritySet { id: 2, len: 3, root: authority_root(&set_c()) }
}

fn client_at_height_10() -> BeefyLightClient<InMemoryStore> {
    let mut client = BeefyLightClient::new(InMemoryStore::new());
    client.initialise(initial_sets(), 11).unwrap();
    client
}

fn snapshot(client: &BeefyLightClient<InMemoryStore>) -> InMemoryStore {
    client.store
}

#[test]
fn happy_path_update() {
    let mut client = client_at_height_10();
    assert_eq!(client.latest_height().unwrap(), 10);
    let u = update(&set_a(), &[0, 1, 2], 0, 11, next_of_b(), 20);
    assert_eq!(client.ingest_mmr_root_with_proof(u.proof), Ok(()));
    assert_eq!(client.latest_height().unwrap(), 11);
    assert_eq!(client.latest_mmr_root().unwrap(), u.root);
    assert_eq!(client.authority_sets().unwrap(), initial_sets());
}

#[test]
fn rotation_update() {
    let mut client = client_at_height_10();
    let u1 = update(&set_a(), &[0, 1, 2], 0, 11, next_of_b(), 20);
    client.ingest_mmr_root_with_proof(u1.proof).unwrap();
    let u2 = update(&set_b(), &[0, 1, 2], 1, 12, next_of_c(), 21);
    assert_eq!(client.ingest_mmr_root_with_proof(u2.proof), Ok(()));
    let sets = client.authority_sets().unwrap();
    assert_eq!(sets.current_authorities, next_of_b());
    assert_eq!(sets.next_authorities, next_of_c());
    assert_eq!(sets.next_authorities.id, sets.current_authorities.id + 1);
    assert_eq!(client.latest_height().unwrap(), 12);
    assert_eq!(client.latest_mmr_root().unwrap(), u2.root);
}

#[test]
fn below_threshold_update() {
    let mut client = client_at_height_10();
    let before = snapshot(&client);
    let u = update(&set_a(), &[0], 0, 11, next_of_b(), 20);
    assert_eq!(u.proof.signed_commitment.signatures.len(), 3);
    assert_eq!(client.ingest_mmr_root_with_proof(u.proof), Err(BeefyClientError::InvalidMmrUpdate));
    assert_eq!(snapshot(&client), before);
}

#[test]
fn one_slot_list_is_below_threshold() {
    let mut client = client_at_height_10();
    let before = snapshot(&client);
    let mut u = update(&set_a(), &[0], 0, 11, next_of_b(), 20);
    u.proof.signed_commitment.signatures.truncate(1);
    assert_eq!(client.ingest_mmr_root_with_proof(u.proof), Err(BeefyClientError::InvalidMmrUpdate));
    assert_eq!(snapshot(&client), before);
}

#[test]
fn two_signers_of_three_are_below_threshold() {
    let sets = initial_sets();
    let state = MmrState { latest_beefy_height: 10, mmr_root_hash: [0u8; 32] };
    let u = update(&set_a(), &[0, 2], 0, 11, next_of_b(), 3).proof;
    assert_eq!(verify_mmr_update(&u, &sets, &state), Err(BeefyClientError::InvalidMmrUpdate));
}

#[test]
fn stale_block_update() {
    let mut client = client_at_height_10();
    let before = snapshot(&client);
    let u = update(&set_a(), &[0, 1, 2], 0, 10, next_of_b(), 20);
    assert_eq!(client.ingest_mmr_root_with_proof(u.proof), Err(BeefyClientError::InvalidMmrUpdate));
    assert_eq!(snapshot(&client), before);
}

#[test]
fn bad_signature_update() {
    let mut client = client_at_height_10();
    let before = snapshot(&client);
    let mut u = update(&set_a(), &[0, 1, 2], 0, 11, next_of_b(), 20);
    u.proof.signed_commitment.signatures[1].as_mut().unwrap()[5] ^= 0x01;
    let r = client.ingest_mmr_root_with_proof(u.proof);
    assert!(
        r == Err(BeefyClientError::InvalidSignature)
            || r == Err(BeefyClientError::InvalidAuthorityProof),
        "{:?}",
        r
    );
    assert_eq!(snapshot(&client), before);
}

#[test]
fn bad_recovery_byte_is_an_invalid_signature() {
    let mut client = client_at_height_10();
    let mut u = update(&set_a(), &[0, 1, 2], 0, 11, next_of_b(), 20);
    u.proof.signed_commitment.signatures[2].as_mut().unwrap()[64] = 9;
    assert_eq!(client.ingest_mmr_root_with_proof(u.proof), Err(BeefyClientError::InvalidSignature));
}

#[test]
fn bad_mmr_proof_update() {
    let mut client = client_at_height_10();
    let before = snapshot(&client);
    let mut u = update(&set_a(), &[0, 1, 2], 0, 11, next_of_b(), 20);
    assert!(!u.proof.mmr_proof.is_empty());
    u.proof.mmr_proof[0][3] ^= 0x10;
    assert_eq!(client.ingest_mmr_root_with_proof(u.proof), Err(BeefyClientError::InvalidMmrProof));
    assert_eq!(snapshot(&client), before);
}

#[test]
fn single_bit_flips_are_rejected() {
    let sets = initial_sets();
    let state = MmrState { latest_beefy_height: 10, mmr_root_hash: [0u8; 32] };
    let base = update(&set_a(), &[0, 1, 2], 0, 11, next_of_b(), 20).proof;
    assert!(verify_mmr_update(&base, &sets, &state).is_ok());
    let mut flips: Vec<MmrUpdateProof> = Vec::new();
    let mut p = base.clone();
    p.signed_commitment.commitment.block_number ^= 1 << 3;
    flips.push(p);
    let mut p = base.clone();
    p.signed_commitment.commitment.payload[0].1[0] ^= 1;
    flips.push(p);
    let mut p = base.clone();
    p.signed_commitment.commitment.payload[0].0[1] ^= 1;
    flips.push(p);
    let mut p = base.clone();
    p.signed_commitment.commitment.validator_set_id ^= 1 << 5;
    flips.push(p);
    for i in 0..3 {
        let mut p = base.clone();
        p.signed_commitment.signatures[i].as_mut().unwrap()[10] ^= 1 << 2;
        flips.push(p);
    }
    for i in 0..base.mmr_proof.len() {
        let mut p = base.clone();
        p.mmr_proof[i][31] ^= 1;
        flips.push(p);
    }
    let mut p = base.clone();
    p.latest_mmr_leaf_with_index.leaf.parachain_heads[0] ^= 1;
    flips.push(p);
    for p in flips {
        assert!(verify_mmr_update(&p, &sets, &state).is_err());
    }
}

#[test]
fn threshold_boundary() {
    let set = BeefyNextAuthoritySet { id: 0, len: 3, root: [0u8; 32] };
    assert!(validate_sigs_against_threshold(&set, 3));
    assert!(!validate_sigs_against_threshold(&set, 2));
    let set = BeefyNextAuthoritySet { id: 0, len: 100, root: [0u8; 32] };
    assert!(validate_sigs_against_threshold(&set, 67));
    assert!(!validate_sigs_against_threshold(&set, 66));
    let set = BeefyNextAuthoritySet { id: 0, len: u32::MAX, root: [0u8; 32] };
    assert!(!validate_sigs_against_threshold(&set, 2863311530));
    let empty = BeefyNextAuthoritySet { id: 0, len: 0, root: [0u8; 32] };
    assert!(validate_sigs_against_threshold(&empty, 1));
    assert!(!validate_sigs_against_threshold(&empty, 0));
}

#[test]
fn threshold_of_the_next_set_is_enough() {
    let mut sets = initial_sets();
    sets.current_authorities.len = 30;
    let state = MmrState { latest_beefy_height: 10, mmr_root_hash: [0u8; 32] };
    let u = update(&set_b(), &[0, 1, 2], 1, 11, next_of_c(), 5).proof;
    let (new_sets, _) = verify_mmr_update(&u, &sets, &state).unwrap();
    assert_eq!(new_sets.current_authorities, sets.next_authorities);
    let mut both_high = sets;
    both_high.next_authorities.len = 30;
    assert_eq!(verify_mmr_update(&u, &both_high, &state), Err(BeefyClientError::InvalidMmrUpdate));
}

#[test]
fn height_boundary() {
    let sets = initial_sets();
    let u = update(&set_a(), &[0, 1, 2], 0, 11, next_of_b(), 3).proof;
    let at = MmrState { latest_beefy_height: 11, mmr_root_hash: [0u8; 32] };
    assert_eq!(verify_mmr_update(&u, &sets, &at), Err(BeefyClientError::InvalidMmrUpdate));
    let below = MmrState { latest_beefy_height: 10, mmr_root_hash: [0u8; 32] };
    let (_, st) = verify_mmr_update(&u, &sets, &below).unwrap();
    assert_eq!(st.latest_beefy_height, 11);
}

#[test]
fn unknown_set_id_is_rejected() {
    let sets = initial_sets();
    let state = MmrState { latest_beefy_height: 10, mmr_root_hash: [0u8; 32] };
    let u = update(&set_a(), &[0, 1, 2], 5, 11, next_of_b(), 3).proof;
    assert_eq!(verify_mmr_update(&u, &sets, &state), Err(BeefyClientError::InvalidMmrUpdate));
}

#[test]
fn missing_root_entry_is_rejected() {
    let sets = initial_sets();
    let state = MmrState { latest_beefy_height: 10, mmr_root_hash: [0u8; 32] };
    let mut u = update(&set_a(), &[0, 1, 2], 0, 11, next_of_b(), 3).proof;
    u.signed_commitment.commitment.payload[0].0 = *b"xx";
    assert_eq!(verify_mmr_update(&u, &sets, &state), Err(BeefyClientError::InvalidMmrUpdate));
}

#[test]
fn short_root_entry_is_an_invalid_root_hash() {
    let sets = initial_sets();
    let state = MmrState { latest_beefy_height: 10, mmr_root_hash: [0u8; 32] };
    let mut u = update(&set_a(), &[0, 1, 2], 0, 11, next_of_b(), 3).proof;
    u.signed_commitment.commitment.payload[0].1.pop();
    assert_eq!(verify_mmr_update(&u, &sets, &state), Err(BeefyClientError::InvalidRootHash));
}

#[test]
fn first_of_two_root_entries_counts() {
    let payload = vec![(*b"ab", vec![1]), (MMR_ROOT_ID, vec![2u8; 32]), (MMR_ROOT_ID, vec![3u8; 32])];
    assert_eq!(find_payload(&payload, &MMR_ROOT_ID), Some(1));
    assert_eq!(find_payload(&payload, b"zz"), None);
    // A signed update whose second root entry is junk still uses the first.
    let sets = initial_sets();
    let state = MmrState { latest_beefy_height: 10, mmr_root_hash: [0u8; 32] };
    let base = update(&set_a(), &[0, 1, 2], 0, 11, next_of_b(), 3);
    let mut commitment = base.proof.signed_commitment.commitment.clone();
    commitment.payload.push((MMR_ROOT_ID, vec![0xEE; 32]));
    let msg = sp_core_hashing::keccak_256(&encode_commitment(&commitment));
    let keys = set_a();
    let signatures = keys
        .iter()
        .map(|k| {
            let sig = k.sign_prehashed(&msg);
            let bytes: &[u8] = sig.as_ref();
            Some(bytes.to_vec())
        })
        .collect();
    let mut u = base.proof.clone();
    u.signed_commitment = SignedCommitment { commitment, signatures };
    let (_, st) = verify_mmr_update(&u, &sets, &state).unwrap();
    assert_eq!(st.mmr_root_hash, base.root);
}

#[test]
fn wrong_length_signatures_are_passed_over() {
    let keys = vec![key(1), key(2), key(3), key(10)];
    let sets = AuthoritySet {
        current_authorities: BeefyNextAuthoritySet { id: 0, len: 4, root: authority_root(&keys) },
        next_authorities: next_of_b(),
    };
    let state = MmrState { latest_beefy_height: 10, mmr_root_hash: [0u8; 32] };
    let mut u = update(&keys, &[0, 1, 2, 3], 0, 11, next_of_b(), 3).proof;
    u.signed_commitment.signatures[3].as_mut().unwrap().push(0);
    // Signer 3 is dropped, so the proof for all four no longer fits.
    assert_eq!(verify_mmr_update(&u, &sets, &state), Err(BeefyClientError::InvalidAuthorityProof));
    u.authority_proof = authority_proof(&keys, &[0, 1, 2]);
    assert!(verify_mmr_update(&u, &sets, &state).is_ok());
    // Two malformed signatures leave two signers, below the threshold of three.
    u.signed_commitment.signatures[2].as_mut().unwrap().pop();
    u.authority_proof = authority_proof(&keys, &[0, 1]);
    assert_eq!(verify_mmr_update(&u, &sets, &state), Err(BeefyClientError::InvalidMmrUpdate));
}

#[test]
fn rotating_leaf_must_announce_the_following_set() {
    let mut client = client_at_height_10();
    let u1 = update(&set_a(), &[0, 1, 2], 0, 11, next_of_b(), 20);
    client.ingest_mmr_root_with_proof(u1.proof).unwrap();
    let before = snapshot(&client);
    let mut skipping = next_of_c();
    skipping.id = 7;
    let u2 = update(&set_b(), &[0, 1, 2], 1, 12, skipping, 21);
    assert_eq!(client.ingest_mmr_root_with_proof(u2.proof), Err(BeefyClientError::InvalidMmrUpdate));
    assert_eq!(snapshot(&client), before);
}

#[test]
fn more_slots_than_members_fail_the_authority_proof() {
    let sets = initial_sets();
    let state = MmrState { latest_beefy_height: 10, mmr_root_hash: [0u8; 32] };
    let mut keys = set_a();
    keys.push(key(42));
    let u = update(&keys, &[0, 1, 2, 3], 0, 11, next_of_b(), 3).proof;
    assert_eq!(verify_mmr_update(&u, &sets, &state), Err(BeefyClientError::InvalidAuthorityProof));
}

#[test]
fn verification_is_repeatable() {
    let sets = initial_sets();
    let state = MmrState { latest_beefy_height: 10, mmr_root_hash: [0u8; 32] };
    let good = update(&set_a(), &[0, 1, 2], 0, 11, next_of_b(), 7).proof;
    assert_eq!(verify_mmr_update(&good, &sets, &state), verify_mmr_update(&good, &sets, &state));
    let bad = update(&set_a(), &[0, 1, 2], 0, 10, next_of_b(), 7).proof;
    assert_eq!(verify_mmr_update(&bad, &sets, &state), verify_mmr_update(&bad, &sets, &state));
}

#[test]
fn heights_strictly_increase_over_updates() {
    let mut client = client_at_height_10();
    let mut last = client.latest_height().unwrap();
    for (block, index) in [(11u32, 1u64), (15, 2), (16, 9)] {
        let u = update(&set_a(), &[0, 1, 2], 0, block, next_of_b(), index);
        client.ingest_mmr_root_with_proof(u.proof).unwrap();
        let h = client.latest_height().unwrap();
        assert!(h > last);
        last = h;
        let sets = client.authority_sets().unwrap();
        assert_eq!(sets.next_authorities.id, sets.current_authorities.id + 1);
    }
    let again = update(&set_a(), &[0, 1, 2], 0, 16, next_of_b(), 10);
    assert_eq!(client.ingest_mmr_root_with_proof(again.proof), Err(BeefyClientError::InvalidMmrUpdate));
}

#[test]
fn initialise_only_once() {
    let mut client = BeefyLightClient::new(InMemoryStore::new());
    assert_eq!(client.latest_height(), Err(BeefyClientError::StorageReadError));
    assert_eq!(client.initialise(initial_sets(), 1), Ok(()));
    assert_eq!(client.latest_height(), Ok(0));
    assert_eq!(client.latest_mmr_root(), Ok([0u8; 32]));
    let before = snapshot(&client);
    assert_eq!(client.initialise(initial_sets(), 50), Err(BeefyClientError::AlreadyInitialised));
    assert_eq!(snapshot(&client), before);
}

#[test]
fn ingest_before_initialise_fails_to_read() {
    let mut client = BeefyLightClient::new(InMemoryStore::new());
    let u = update(&set_a(), &[0, 1, 2], 0, 11, next_of_b(), 1);
    assert_eq!(client.ingest_mmr_root_with_proof(u.proof), Err(BeefyClientError::StorageReadError));
    assert_eq!(client.store, InMemoryStore::new());
}

#[test]
fn recovered_address_matches_the_signing_key() {
    for seed in 1..=5u8 {
        let pair = key(seed);
        let msg = sp_core_hashing::keccak_256(&[seed, 1, 2, 3]);
        let leaves = collect_signer_leaves(&vec![Some(sig_bytes(&pair, &msg))], &msg).unwrap();
        assert_eq!(leaves, vec![(0, sp_core_hashing::keccak_256(&eth_address(&pair)))]);
        assert_eq!(beefy_address_of(&compressed(&pair)), eth_address(&pair));
        assert_eq!(beefy_address_of(&compressed(&pair)).len(), 20);
    }
}

#[test]
fn recovery_accepts_both_recovery_byte_forms() {
    let pair = key(3);
    let msg = [8u8; 32];
    let expected = vec![(0, sp_core_hashing::keccak_256(&eth_address(&pair)))];
    let mut bytes = sig_bytes(&pair, &msg);
    assert_eq!(collect_signer_leaves(&vec![Some(bytes.clone())], &msg), Some(expected.clone()));
    bytes[64] += 27;
    assert_eq!(collect_signer_leaves(&vec![Some(bytes.clone())], &msg), Some(expected));
    bytes[64] = 5;
    assert_eq!(collect_signer_leaves(&vec![Some(bytes)], &msg), None);
}

#[test]
fn invalid_point_has_the_empty_address() {
    let mut bad = [0xFFu8; 33];
    bad[0] = 0x02;
    assert_eq!(beefy_address_of(&bad), Vec::<u8>::new());
}

#[test]
fn signer_leaves_keep_positions() {
    let keys = set_a();
    let msg = sp_core_hashing::keccak_256(b"commitment");
    let sigs: Vec<Option<Vec<u8>>> = vec![
        None,
        Some(sig_bytes(&keys[1], &msg)),
        Some(vec![1, 2, 3]),
        Some(sig_bytes(&keys[0], &msg)),
    ];
    let leaves = collect_signer_leaves(&sigs, &msg).unwrap();
    assert_eq!(leaves.len(), 2);
    assert_eq!(leaves[0], (1, sp_core_hashing::keccak_256(&eth_address(&keys[1]))));
    assert_eq!(leaves[1], (3, sp_core_hashing::keccak_256(&eth_address(&keys[0]))));
}

#[test]
fn relay_status_toggles() {
    let mut relay = PacketRelay::new();
    assert!(packet_relay_status(&relay));
    set_relay_status(&mut relay, false);
    assert!(!packet_relay_status(&relay));
    set_relay_status(&mut relay, true);
    assert!(packet_relay_status(&relay));
    assert_eq!(Mode::Light, Mode::Light);
}

#[test]
fn encoded_store_follows_updates() {
    let mut client = BeefyLightClient::new(EncodedStore::new());
    client.initialise(initial_sets(), 11).unwrap();
    assert_eq!(client.store.mmr_state.as_ref().unwrap().len(), 36);
    assert_eq!(client.store.authority_set.as_ref().unwrap().len(), 88);
    let u1 = update(&set_a(), &[0, 1, 2], 0, 11, next_of_b(), 20);
    client.ingest_mmr_root_with_proof(u1.proof).unwrap();
    let u2 = update(&set_b(), &[0, 1, 2], 1, 12, next_of_c(), 21);
    client.ingest_mmr_root_with_proof(u2.proof).unwrap();
    assert_eq!(client.latest_height(), Ok(12));
    assert_eq!(client.latest_mmr_root(), Ok(u2.root));
    assert_eq!(client.authority_sets().unwrap().current_authorities, next_of_b());
}

#[test]
fn corrupted_stored_state_is_a_decoding_error() {
    let mut client = BeefyLightClient::new(EncodedStore::new());
    client.initialise(initial_sets(), 11).unwrap();
    client.store.mmr_state.as_mut().unwrap().pop();
    let before = client.store.clone();
    let u = update(&set_a(), &[0, 1, 2], 0, 11, next_of_b(), 20);
    assert_eq!(client.ingest_mmr_root_with_proof(u.proof), Err(BeefyClientError::DecodingError));
    assert_eq!(client.store, before);
    assert_eq!(client.latest_height(), Err(BeefyClientError::DecodingError));
    client.store.authority_set = Some(vec![1, 2, 3]);
    assert_eq!(client.authority_sets(), Err(BeefyClientError::DecodingError));
}

/// Storage whose writes fail once `fail_writes` is set.
#[derive(Clone, Debug, PartialEq)]
struct FlakyStore {
    inner: InMemoryStore,
    fail_writes: bool,
    authority_writes: usize,
}

impl StorageRead for FlakyStore {
    fn stored_mmr_state(&self) -> Option<MmrState> {
        self.inner.mmr_state
    }
    fn stored_authority_set(&self) -> Option<AuthoritySet> {
        self.inner.authority_set
    }
    fn mmr_state(&self) -> Result<MmrState, BeefyClientError> {
        self.inner.mmr_state()
    }
    fn authority_set(&self) -> Result<AuthoritySet, BeefyClientError> {
        self.inner.authority_set()
    }
    fn has_mmr_state(&self) -> Result<bool, BeefyClientError> {
        self.inner.has_mmr_state()
    }
}

impl StorageWrite for FlakyStore {
    fn set_mmr_state(&mut self, mmr_state: MmrState) -> Result<(), BeefyClientError> {
        if self.fail_writes {
            return Err(BeefyClientError::StorageWriteError);
        }
        self.inner.set_mmr_state(mmr_state)
    }
    fn set_authority_set(&mut self, set: AuthoritySet) -> Result<(), BeefyClientError> {
        if self.fail_writes {
            return Err(BeefyClientError::StorageWriteError);
        }
        self.authority_writes += 1;
        self.inner.set_authority_set(set)
    }
    fn commit(&mut self, mmr_state: MmrState, set: AuthoritySet) -> Result<(), BeefyClientError> {
        if self.fail_writes {
            return Err(BeefyClientError::StorageWriteError);
        }
        self.authority_writes += 1;
        self.inner.commit(mmr_state, set)
    }
}

#[test]
fn failed_commit_changes_nothing() {
    let store = FlakyStore { inner: InMemoryStore::new(), fail_writes: false, authority_writes: 0 };
    let mut client = BeefyLightClient::new(store);
    client.initialise(initial_sets(), 11).unwrap();
    let u1 = update(&set_a(), &[0, 1, 2], 0, 11, next_of_b(), 20);
    client.ingest_mmr_root_with_proof(u1.proof).unwrap();
    client.store.fail_writes = true;
    let before = client.store.inner;
    let u2 = update(&set_b(), &[0, 1, 2], 1, 12, next_of_c(), 21);
    assert_eq!(client.ingest_mmr_root_with_proof(u2.proof), Err(BeefyClientError::StorageWriteError));
    assert_eq!(client.store.inner, before);
    assert_eq!(client.store.authority_writes, 2);
}

#[test]
fn failed_initialise_write() {
    let store = FlakyStore { inner: InMemoryStore::new(), fail_writes: true, authority_writes: 0 };
    let mut client = BeefyLightClient::new(store);
    assert_eq!(client.initialise(initial_sets(), 11), Err(BeefyClientError::StorageWriteError));
    assert_eq!(client.latest_height(), Err(BeefyClientError::StorageReadError));
}

#[test]
fn initialise_halts_on_undecodable_state() {
    let mut client = BeefyLightClient::new(EncodedStore::new());
    client.store.mmr_state = Some(vec![1, 2, 3]);
    let before = client.store.clone();
    assert_eq!(client.initialise(initial_sets(), 11), Err(BeefyClientError::DecodingError));
    assert_eq!(client.store, before);
}

#[test]
fn authority_proofs_for_every_large_enough_subset() {
    let keys: Vec<ecdsa::Pair> = (20..27u8).map(key).collect();
    let sets = AuthoritySet {
        current_authorities: BeefyNextAuthoritySet { id: 0, len: 7, root: authority_root(&keys) },
        next_authorities: next_of_b(),
    };
    let state = MmrState { latest_beefy_height: 10, mmr_root_hash: [0u8; 32] };
    let all = update(&keys, &[0, 1, 2, 3, 4, 5, 6], 0, 11, next_of_b(), 4).proof;
    for mask in 0u32..128 {
        let signers: Vec<usize> = (0..7).filter(|i| mask & (1 << i) != 0).collect();
        if signers.len() < 5 {
            continue;
        }
        let mut u = all.clone();
        for i in 0..7 {
            if !signers.contains(&i) {
                u.signed_commitment.signatures[i] = None;
            }
        }
        u.authority_proof = authority_proof(&keys, &signers);
        assert!(verify_mmr_update(&u, &sets, &state).is_ok(), "mask={}", mask);
        if !u.authority_proof.is_empty() {
            u.authority_proof[0][0] ^= 1;
            assert_eq!(
                verify_mmr_update(&u, &sets, &state),
                Err(BeefyClientError::InvalidAuthorityProof)
            );
        }
    }
}

#[test]
fn empty_authority_set_is_rejected() {
    let mut sets = initial_sets();
    sets.current_authorities.len = 0;
    let state = MmrState { latest_beefy_height: 10, mmr_root_hash: [0u8; 32] };
    let u = update(&set_a(), &[0], 0, 11, next_of_b(), 3).proof;
    assert_eq!(verify_mmr_update(&u, &sets, &state), Err(BeefyClientError::InvalidAuthorityProof));
}

#[test]
fn initialisation_follows_presence() {
    assert_eq!(initialisation_allowed(Ok(false)), Ok(()));
    assert_eq!(initialisation_allowed(Ok(true)), Err(BeefyClientError::AlreadyInitialised));
    assert_eq!(
        initialisation_allowed(Err(BeefyClientError::StorageReadError)),
        Err(BeefyClientError::StorageReadError)
    );
}

#[test]
fn stores_report_presence() {
    let mut memory = InMemoryStore::new();
    assert_eq!(memory.has_mmr_state(), Ok(false));
    memory.commit(MmrState { latest_beefy_height: 3, mmr_root_hash: [1u8; 32] }, initial_sets()).unwrap();
    assert_eq!(memory.has_mmr_state(), Ok(true));
    let mut encoded = EncodedStore::new();
    assert_eq!(encoded.has_mmr_state(), Ok(false));
    encoded.set_mmr_state(MmrState { latest_beefy_height: 3, mmr_root_hash: [1u8; 32] }).unwrap();
    assert_eq!(encoded.has_mmr_state(), Ok(true));
    encoded.mmr_state.as_mut().unwrap().push(0);
    assert_eq!(encoded.has_mmr_state(), Err(BeefyClientError::DecodingError));
    let mut client = BeefyLightClient::new(InMemoryStore::new());
    client.store.mmr_state = Some(MmrState { latest_beefy_height: 3, mmr_root_hash: [1u8; 32] });
    assert_eq!(client.initialise(initial_sets(), 11), Err(BeefyClientError::AlreadyInitialised));
}
