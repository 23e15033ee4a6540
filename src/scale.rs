//! The SCALE encoding of the values that the verifier hashes and stores:
//! fixed-width integers little-endian, byte arrays as they are, and vectors
//! prefixed by their length in compact form.
use vstd::prelude::*;

use crate::bytes::{append_bytes, copy_range, to_h256};
use crate::primitives::{BeefyNextAuthoritySet, Commitment, MmrLeaf};
use crate::traits::{AuthoritySet, MmrState};

verus! {

/// The `n` low bytes of `x`, least significant first.
pub open spec fn le_bytes(x: nat, n: nat) -> Seq<u8>
    decreases n,
{
    if n == 0 {
        Seq::empty()
    } else {
        seq![(x % 256) as u8] + le_bytes(x / 256, (n - 1) as nat)
    }
}

/// The compact encoding of a length: one, two or four bytes holding
/// `4 * v + mode`, or the marker byte `3` followed by four bytes of `v`.
pub open spec fn compact_bytes(v: nat) -> Seq<u8> {
    if v < 64 {
        seq![(v * 4) as u8]
    } else if v < 16384 {
        le_bytes(v * 4 + 1, 2)
    } else if v < 1073741824 {
        le_bytes(v * 4 + 2, 4)
    } else {
        seq![3u8] + le_bytes(v, 4)
    }
}

/// The encoding of one payload entry: its id, then its value as a vector.
pub open spec fn payload_item_bytes(item: ([u8; 2], Vec<u8>)) -> Seq<u8> {
    item.0@ + compact_bytes(item.1@.len()) + item.1@
}

/// The encodings of the payload entries, one after the other.
pub open spec fn payload_items_bytes(items: Seq<([u8; 2], Vec<u8>)>) -> Seq<u8>
    decreases items.len(),
{
    if items.len() == 0 {
        Seq::empty()
    } else {
        payload_items_bytes(items.drop_last()) + payload_item_bytes(items.last())
    }
}

/// Every length in the commitment fits the 32 bits that the encoding allows.
pub open spec fn commitment_encodable(c: Commitment) -> bool {
    &&& c.payload@.len() <= u32::MAX
    &&& forall|j: int| 0 <= j < c.payload@.len() ==> #[trigger] c.payload@[j].1@.len() <= u32::MAX
}

/// The encoding of a commitment: payload, block number, validator set id.
pub open spec fn commitment_bytes(c: Commitment) -> Seq<u8> {
    compact_bytes(c.payload@.len()) + payload_items_bytes(c.payload@) + le_bytes(
        c.block_number as nat,
        4,
    ) + le_bytes(c.validator_set_id as nat, 8)
}

/// The encoding of an authority set: id, size, root.
pub open spec fn authority_set_bytes(s: BeefyNextAuthoritySet) -> Seq<u8> {
    le_bytes(s.id as nat, 8) + le_bytes(s.len as nat, 4) + s.root@
}

/// The encoding of an MMR leaf, field by field.
pub open spec fn mmr_leaf_bytes(l: MmrLeaf) -> Seq<u8> {
    seq![l.version] + le_bytes(l.parent_number_and_hash.0 as nat, 4) + l.parent_number_and_hash.1@
        + authority_set_bytes(l.beefy_next_authority_set) + l.parachain_heads@
}

/// Appends the `n` low bytes of `x`, least significant first.
pub fn push_le(out: &mut Vec<u8>, x: u64, n: usize)
    requires
        n <= 8,
    ensures
        final(out)@ == old(out)@ + le_bytes(x as nat, n as nat),
{
    let ghost start = out@;
    let mut v: u64 = x;
    let mut i: usize = 0;
    while i < n
        invariant
            i <= n,
            start + le_bytes(x as nat, n as nat) == out@ + le_bytes(v as nat, (n - i) as nat),
        decreases n - i,
    {
        let ghost before = out@;
        out.push((v % 256) as u8);
        proof {
            assert(le_bytes(v as nat, (n - i) as nat) == seq![(v % 256) as u8] + le_bytes(
                (v / 256) as nat,
                (n - i - 1) as nat,
            ));
            assert(before + le_bytes(v as nat, (n - i) as nat) =~= out@ + le_bytes(
                (v / 256) as nat,
                (n - i - 1) as nat,
            ));
        }
        v = v / 256;
        i = i + 1;
    }
    assert(out@ + le_bytes(v as nat, 0) =~= out@);
}

/// Appends the compact encoding of a length.
pub fn push_compact(out: &mut Vec<u8>, v: usize)
    requires
        v <= u32::MAX,
    ensures
        final(out)@ == old(out)@ + compact_bytes(v as nat),
{
    let x: u64 = v as u64;
    if x < 64 {
        out.push((x * 4) as u8);
        assert(out@ =~= old(out)@ + compact_bytes(v as nat));
    } else if x < 16384 {
        push_le(out, x * 4 + 1, 2);
    } else if x < 1073741824 {
        push_le(out, x * 4 + 2, 4);
    } else {
        out.push(3u8);
        push_le(out, x, 4);
        assert(out@ =~= old(out)@ + compact_bytes(v as nat));
    }
}

/// The encoding of a commitment, whose Keccak digest the validators sign.
pub fn encode_commitment(c: &Commitment) -> (r: Vec<u8>)
    requires
        commitment_encodable(*c),
    ensures
        r@ == commitment_bytes(*c),
{
    let mut out: Vec<u8> = Vec::new();
    push_compact(&mut out, c.payload.len());
    let ghost head = out@;
    let mut i: usize = 0;
    while i < c.payload.len()
        invariant
            i <= c.payload@.len(),
            commitment_encodable(*c),
            out@ == head + payload_items_bytes(c.payload@.subrange(0, i as int)),
        decreases c.payload@.len() - i,
    {
        let ghost before = out@;
        append_bytes(&mut out, c.payload[i].0.as_slice());
        assert(c.payload@[i as int].1@.len() <= u32::MAX);
        push_compact(&mut out, c.payload[i].1.len());
        append_bytes(&mut out, c.payload[i].1.as_slice());
        proof {
            let items = c.payload@.subrange(0, i + 1);
            assert(items.drop_last() =~= c.payload@.subrange(0, i as int));
            assert(items.last() == c.payload@[i as int]);
            assert(out@ =~= before + payload_item_bytes(c.payload@[i as int]));
        }
        i = i + 1;
    }
    assert(c.payload@.subrange(0, i as int) =~= c.payload@);
    push_le(&mut out, c.block_number as u64, 4);
    push_le(&mut out, c.validator_set_id, 8);
    out
}

/// Appends the encoding of an authority set.
pub fn push_authority_set(out: &mut Vec<u8>, s: &BeefyNextAuthoritySet)
    ensures
        final(out)@ == old(out)@ + authority_set_bytes(*s),
{
    push_le(out, s.id, 8);
    push_le(out, s.len as u64, 4);
    append_bytes(out, s.root.as_slice());
    assert(out@ =~= old(out)@ + authority_set_bytes(*s));
}

/// The encoding of an MMR leaf, whose Keccak digest is the leaf's hash.
pub fn encode_mmr_leaf(l: &MmrLeaf) -> (r: Vec<u8>)
    ensures
        r@ == mmr_leaf_bytes(*l),
{
    let mut out: Vec<u8> = Vec::new();
    out.push(l.version);
    push_le(&mut out, l.parent_number_and_hash.0 as u64, 4);
    append_bytes(&mut out, l.parent_number_and_hash.1.as_slice());
    push_authority_set(&mut out, &l.beefy_next_authority_set);
    append_bytes(&mut out, l.parachain_heads.as_slice());
    assert(out@ =~= mmr_leaf_bytes(*l));
    out
}

/// `256` to the power `n`.
pub open spec fn pow256(n: nat) -> nat
    decreases n,
{
    if n == 0 {
        1
    } else {
        256 * pow256((n - 1) as nat)
    }
}

/// The number that little-endian bytes stand for.
pub open spec fn le_value(s: Seq<u8>) -> nat
    decreases s.len(),
{
    if s.len() == 0 {
        0
    } else {
        s[0] as nat + 256 * le_value(s.drop_first())
    }
}

proof fn lemma_div_mod_256(a: int, b: int)
    requires
        0 <= a < 256,
        b >= 0,
    ensures
        (a + 256 * b) % 256 == a,
        (a + 256 * b) / 256 == b,
{
    assert((a + 256 * b) % 256 == a && (a + 256 * b) / 256 == b) by (nonlinear_arith)
        requires
            0 <= a < 256,
            b >= 0,
    ;
}

/// Bytes read as a number and written back are the same bytes.
pub proof fn lemma_le_bytes_of_value(s: Seq<u8>)
    ensures
        le_bytes(le_value(s), s.len()) == s,
        le_value(s) < pow256(s.len()),
    decreases s.len(),
{
    if s.len() > 0 {
        let rest = s.drop_first();
        lemma_le_bytes_of_value(rest);
        lemma_div_mod_256(s[0] as int, le_value(rest) as int);
        assert(seq![s[0]] + rest =~= s);
        assert(le_value(s) < pow256(s.len())) by (nonlinear_arith)
            requires
                le_value(s) == s[0] as nat + 256 * le_value(rest),
                le_value(rest) < pow256(rest.len()),
                pow256(s.len()) == 256 * pow256(rest.len()),
                s[0] < 256,
        ;
    }
}

/// A number below `256^n` written as `n` bytes and read back is the same number.
pub proof fn lemma_le_value_of_bytes(x: nat, n: nat)
    requires
        x < pow256(n),
    ensures
        le_value(le_bytes(x, n)) == x,
        le_bytes(x, n).len() == n,
    decreases n,
{
    if n > 0 {
        assert(x / 256 < pow256((n - 1) as nat)) by (nonlinear_arith)
            requires
                x < 256 * pow256((n - 1) as nat),
        ;
        lemma_le_value_of_bytes(x / 256, (n - 1) as nat);
        let b = le_bytes(x, n);
        assert(b.drop_first() =~= le_bytes(x / 256, (n - 1) as nat));
        assert(x == x % 256 + 256 * (x / 256)) by (nonlinear_arith);
    } else {
        assert(x == 0);
    }
}

proof fn lemma_pow256_facts()
    ensures
        pow256(1) == 256,
        pow256(2) == 65536,
        pow256(4) == 0x1_0000_0000,
        pow256(8) == 0x1_0000_0000_0000_0000,
{
    reveal_with_fuel(pow256, 9);
}

/// Reads `n` little-endian bytes from `start` on.
pub fn read_le(bytes: &[u8], start: usize, n: usize) -> (r: u64)
    requires
        n <= 8,
        start + n <= bytes@.len(),
    ensures
        r == le_value(bytes@.subrange(start as int, start + n)),
{
    proof {
        lemma_pow256_facts();
        lemma_le_bytes_of_value(bytes@.subrange(start as int, start + n));
        lemma_pow256_monotone(n as nat, 8);
    }
    let total: usize = bytes.len();
    assert(start + n <= total);
    let end: usize = start + n;
    let mut v: u64 = 0;
    let mut i: usize = end;
    while i > start
        invariant
            start <= i <= end == start + n <= bytes@.len(),
            n <= 8,
            pow256(n as nat) <= pow256(8),
            pow256(8) == 0x1_0000_0000_0000_0000,
            v == le_value(bytes@.subrange(i as int, end as int)),
            le_value(bytes@.subrange(start as int, end as int)) < pow256(n as nat),
        decreases i - start,
    {
        let ghost tail = bytes@.subrange(i as int, end as int);
        let ghost longer = bytes@.subrange(i - 1, end as int);
        assert(longer.drop_first() =~= tail);
        proof {
            lemma_le_prefix_bound(bytes@.subrange(start as int, end as int), i - 1 - start);
            assert(bytes@.subrange(start as int, end as int).subrange(i - 1 - start, n as int)
                =~= longer);
        }
        let b: u8 = bytes[i - 1];
        assert(le_value(longer) == b as nat + 256 * v);
        v = b as u64 + 256 * v;
        i = i - 1;
    }
    v
}

proof fn lemma_pow256_monotone(a: nat, b: nat)
    requires
        a <= b,
    ensures
        pow256(a) <= pow256(b),
    decreases b,
{
    if a < b {
        lemma_pow256_monotone(a, (b - 1) as nat);
    }
}

/// A suffix of little-endian bytes stands for a number no larger than the whole.
proof fn lemma_le_prefix_bound(s: Seq<u8>, k: int)
    requires
        0 <= k <= s.len(),
    ensures
        le_value(s.subrange(k, s.len() as int)) <= le_value(s),
    decreases k,
{
    if k > 0 {
        assert(s.drop_first().subrange(k - 1, s.drop_first().len() as int) =~= s.subrange(
            k,
            s.len() as int,
        ));
        lemma_le_prefix_bound(s.drop_first(), k - 1);
    } else {
        assert(s.subrange(0, s.len() as int) =~= s);
    }
}

/// Two hashes with the same bytes are equal.
pub proof fn lemma_hash_eq(a: [u8; 32], b: [u8; 32])
    requires
        a@ == b@,
    ensures
        a == b,
{
    assert forall|i: int| 0 <= i < 32 implies a[i] == b[i] by {
        assert(a@[i] == b@[i]);
    }
    assert(a =~= b);
}

/// Two authority sets with the same encoding are equal: decoding the encoding
/// of a set gives that set back.
pub proof fn lemma_authority_set_bytes_injective(a: BeefyNextAuthoritySet, b: BeefyNextAuthoritySet)
    requires
        authority_set_bytes(a) == authority_set_bytes(b),
    ensures
        a == b,
{
    lemma_pow256_facts();
    lemma_le_value_of_bytes(a.id as nat, 8);
    lemma_le_value_of_bytes(b.id as nat, 8);
    lemma_le_value_of_bytes(a.len as nat, 4);
    lemma_le_value_of_bytes(b.len as nat, 4);
    let ea = authority_set_bytes(a);
    let eb = authority_set_bytes(b);
    assert(ea.subrange(0, 8) =~= le_bytes(a.id as nat, 8));
    assert(eb.subrange(0, 8) =~= le_bytes(b.id as nat, 8));
    assert(ea.subrange(8, 12) =~= le_bytes(a.len as nat, 4));
    assert(eb.subrange(8, 12) =~= le_bytes(b.len as nat, 4));
    assert(ea.subrange(12, 44) =~= a.root@);
    assert(eb.subrange(12, 44) =~= b.root@);
    lemma_hash_eq(a.root, b.root);
}

/// Decodes an authority set; `None` where the input is not 44 bytes long.
pub fn decode_authority_set(bytes: &[u8]) -> (r: Option<BeefyNextAuthoritySet>)
    ensures
        r is Some <==> bytes@.len() == 44,
        r matches Some(s) ==> authority_set_bytes(s) == bytes@,
{
    if bytes.len() != 44 {
        return None;
    }
    let id = read_le(bytes, 0, 8);
    let len = read_le(bytes, 8, 4);
    proof {
        lemma_pow256_facts();
        lemma_le_bytes_of_value(bytes@.subrange(0, 8));
        lemma_le_bytes_of_value(bytes@.subrange(8, 12));
    }
    let root_bytes = copy_range(bytes, 12, 44);
    let root = to_h256(root_bytes.as_slice());
    let s = BeefyNextAuthoritySet { id, len: len as u32, root };
    assert(authority_set_bytes(s) =~= bytes@);
    Some(s)
}

/// The stored encoding of the authority sets: current, then next.
pub open spec fn authority_sets_bytes(s: AuthoritySet) -> Seq<u8> {
    authority_set_bytes(s.current_authorities) + authority_set_bytes(s.next_authorities)
}

/// The stored encoding of the MMR state: height, then root.
pub open spec fn mmr_state_bytes(s: MmrState) -> Seq<u8> {
    le_bytes(s.latest_beefy_height as nat, 4) + s.mmr_root_hash@
}

/// The stored encoding of the authority sets.
pub fn encode_authority_sets(s: &AuthoritySet) -> (r: Vec<u8>)
    ensures
        r@ == authority_sets_bytes(*s),
{
    let mut out: Vec<u8> = Vec::new();
    push_authority_set(&mut out, &s.current_authorities);
    push_authority_set(&mut out, &s.next_authorities);
    out
}

/// Decodes the stored authority sets; `None` where the input is not 88 bytes.
pub fn decode_authority_sets(bytes: &[u8]) -> (r: Option<AuthoritySet>)
    ensures
        r is Some <==> bytes@.len() == 88,
        r matches Some(s) ==> authority_sets_bytes(s) == bytes@,
{
    if bytes.len() != 88 {
        return None;
    }
    let first = copy_range(bytes, 0, 44);
    let second = copy_range(bytes, 44, 88);
    let current = decode_authority_set(first.as_slice()).unwrap();
    let next = decode_authority_set(second.as_slice()).unwrap();
    let s = AuthoritySet { current_authorities: current, next_authorities: next };
    assert(authority_sets_bytes(s) =~= bytes@);
    Some(s)
}

/// The stored encoding of the MMR state.
pub fn encode_mmr_state(s: &MmrState) -> (r: Vec<u8>)
    ensures
        r@ == mmr_state_bytes(*s),
{
    let mut out: Vec<u8> = Vec::new();
    push_le(&mut out, s.latest_beefy_height as u64, 4);
    append_bytes(&mut out, s.mmr_root_hash.as_slice());
    out
}

/// Decodes the stored MMR state; `None` where the input is not 36 bytes.
pub fn decode_mmr_state(bytes: &[u8]) -> (r: Option<MmrState>)
    ensures
        r is Some <==> bytes@.len() == 36,
        r matches Some(s) ==> mmr_state_bytes(s) == bytes@,
{
    if bytes.len() != 36 {
        return None;
    }
    let height = read_le(bytes, 0, 4);
    proof {
        lemma_pow256_facts();
        lemma_le_bytes_of_value(bytes@.subrange(0, 4));
    }
    let root_bytes = copy_range(bytes, 4, 36);
    let s = MmrState { latest_beefy_height: height as u32, mmr_root_hash: to_h256(root_bytes.as_slice()) };
    assert(mmr_state_bytes(s) =~= bytes@);
    Some(s)
}

/// Decodes an MMR leaf; `None` where the input is not 113 bytes long.
pub fn decode_mmr_leaf(bytes: &[u8]) -> (r: Option<MmrLeaf>)
    ensures
        r is Some <==> bytes@.len() == 113,
        r matches Some(l) ==> mmr_leaf_bytes(l) == bytes@,
{
    if bytes.len() != 113 {
        return None;
    }
    let number = read_le(bytes, 1, 4);
    proof {
        lemma_pow256_facts();
        lemma_le_bytes_of_value(bytes@.subrange(1, 5));
    }
    let parent_hash = copy_range(bytes, 5, 37);
    let set_bytes = copy_range(bytes, 37, 81);
    let heads = copy_range(bytes, 81, 113);
    let set = decode_authority_set(set_bytes.as_slice()).unwrap();
    let l = MmrLeaf {
        version: bytes[0],
        parent_number_and_hash: (number as u32, to_h256(parent_hash.as_slice())),
        beefy_next_authority_set: set,
        parachain_heads: to_h256(heads.as_slice()),
    };
    assert(mmr_leaf_bytes(l) =~= bytes@);
    Some(l)
}

/// Two authority-set pairs with the same stored encoding are equal: decoding
/// the encoding of a value gives that value back.
pub proof fn lemma_authority_sets_round_trip(a: AuthoritySet, b: AuthoritySet)
    requires
        authority_sets_bytes(b) == authority_sets_bytes(a),
    ensures
        b == a,
{
    lemma_le_value_of_bytes_len();
    let ea = authority_sets_bytes(a);
    let eb = authority_sets_bytes(b);
    assert(ea.subrange(0, 44) =~= authority_set_bytes(a.current_authorities));
    assert(eb.subrange(0, 44) =~= authority_set_bytes(b.current_authorities));
    assert(ea.subrange(44, 88) =~= authority_set_bytes(a.next_authorities));
    assert(eb.subrange(44, 88) =~= authority_set_bytes(b.next_authorities));
    lemma_authority_set_bytes_injective(a.current_authorities, b.current_authorities);
    lemma_authority_set_bytes_injective(a.next_authorities, b.next_authorities);
}

proof fn lemma_le_value_of_bytes_len()
    ensures
        forall|x: nat, n: nat| #[trigger] le_bytes(x, n).len() == n,
{
    assert forall|x: nat, n: nat| #[trigger] le_bytes(x, n).len() == n by {
        lemma_le_bytes_len(x, n);
    }
}

proof fn lemma_le_bytes_len(x: nat, n: nat)
    ensures
        le_bytes(x, n).len() == n,
    decreases n,
{
    if n > 0 {
        lemma_le_bytes_len(x / 256, (n - 1) as nat);
    }
}

/// The stored encoding of an MMR state is 36 bytes long.
pub proof fn lemma_mmr_state_bytes_len(s: MmrState)
    ensures
        mmr_state_bytes(s).len() == 36,
{
    lemma_le_bytes_len(s.latest_beefy_height as nat, 4);
}

/// The stored encoding of the authority sets is 88 bytes long.
pub proof fn lemma_authority_sets_bytes_len(s: AuthoritySet)
    ensures
        authority_sets_bytes(s).len() == 88,
{
    lemma_le_bytes_len(s.current_authorities.id as nat, 8);
    lemma_le_bytes_len(s.current_authorities.len as nat, 4);
    lemma_le_bytes_len(s.next_authorities.id as nat, 8);
    lemma_le_bytes_len(s.next_authorities.len as nat, 4);
}

/// Two MMR states with the same stored encoding are equal: decoding the
/// encoding of a value gives that value back.
pub proof fn lemma_mmr_state_round_trip(a: MmrState, b: MmrState)
    requires
        mmr_state_bytes(b) == mmr_state_bytes(a),
    ensures
        b == a,
{
    lemma_pow256_facts();
    lemma_le_value_of_bytes(a.latest_beefy_height as nat, 4);
    lemma_le_value_of_bytes(b.latest_beefy_height as nat, 4);
    let ea = mmr_state_bytes(a);
    let eb = mmr_state_bytes(b);
    assert(ea.subrange(0, 4) =~= le_bytes(a.latest_beefy_height as nat, 4));
    assert(eb.subrange(0, 4) =~= le_bytes(b.latest_beefy_height as nat, 4));
    assert(ea.subrange(4, 36) =~= a.mmr_root_hash@);
    assert(eb.subrange(4, 36) =~= b.mmr_root_hash@);
    lemma_hash_eq(a.mmr_root_hash, b.mmr_root_hash);
}

/// Two MMR leaves with the same encoding are equal: decoding the encoding of
/// a leaf gives that leaf back.
pub proof fn lemma_mmr_leaf_round_trip(a: MmrLeaf, b: MmrLeaf)
    requires
        mmr_leaf_bytes(b) == mmr_leaf_bytes(a),
    ensures
        b == a,
{
    lemma_pow256_facts();
    lemma_le_value_of_bytes_len();
    lemma_le_value_of_bytes(a.parent_number_and_hash.0 as nat, 4);
    lemma_le_value_of_bytes(b.parent_number_and_hash.0 as nat, 4);
    let ea = mmr_leaf_bytes(a);
    let eb = mmr_leaf_bytes(b);
    assert(ea[0] == a.version);
    assert(eb[0] == b.version);
    assert(ea.subrange(1, 5) =~= le_bytes(a.parent_number_and_hash.0 as nat, 4));
    assert(eb.subrange(1, 5) =~= le_bytes(b.parent_number_and_hash.0 as nat, 4));
    assert(ea.subrange(5, 37) =~= a.parent_number_and_hash.1@);
    assert(eb.subrange(5, 37) =~= b.parent_number_and_hash.1@);
    assert(ea.subrange(37, 81) =~= authority_set_bytes(a.beefy_next_authority_set));
    assert(eb.subrange(37, 81) =~= authority_set_bytes(b.beefy_next_authority_set));
    assert(ea.subrange(81, 113) =~= a.parachain_heads@);
    assert(eb.subrange(81, 113) =~= b.parachain_heads@);
    lemma_authority_set_bytes_injective(a.beefy_next_authority_set, b.beefy_next_authority_set);
    lemma_hash_eq(a.parent_number_and_hash.1, b.parent_number_and_hash.1);
    lemma_hash_eq(a.parachain_heads, b.parachain_heads);
}

/// A payload as pairs of id bytes and value bytes.
pub open spec fn payload_view(items: Seq<([u8; 2], Vec<u8>)>) -> Seq<(Seq<u8>, Seq<u8>)> {
    items.map_values(|it: ([u8; 2], Vec<u8>)| (it.0@, it.1@))
}

/// Reads a compact length from the front of `s`: the length and the bytes
/// after it. Encodings that a smaller mode could hold are refused.
pub open spec fn parse_compact(s: Seq<u8>) -> Option<(nat, Seq<u8>)> {
    if s.len() == 0 {
        None
    } else if s[0] % 4 == 0 {
        Some(((s[0] / 4) as nat, s.subrange(1, s.len() as int)))
    } else if s[0] % 4 == 1 {
        if s.len() < 2 || le_value(s.subrange(0, 2)) / 4 < 64 {
            None
        } else {
            Some((le_value(s.subrange(0, 2)) / 4, s.subrange(2, s.len() as int)))
        }
    } else if s[0] % 4 == 2 {
        if s.len() < 4 || le_value(s.subrange(0, 4)) / 4 < 16384 {
            None
        } else {
            Some((le_value(s.subrange(0, 4)) / 4, s.subrange(4, s.len() as int)))
        }
    } else {
        if s[0] != 3 || s.len() < 5 || le_value(s.subrange(1, 5)) < 1073741824 {
            None
        } else {
            Some((le_value(s.subrange(1, 5)), s.subrange(5, s.len() as int)))
        }
    }
}

/// Reads one payload entry from the front of `s`.
pub open spec fn parse_item(s: Seq<u8>) -> Option<((Seq<u8>, Seq<u8>), Seq<u8>)> {
    if s.len() < 2 {
        None
    } else {
        match parse_compact(s.subrange(2, s.len() as int)) {
            None => None,
            Some((n, r)) => if r.len() < n {
                None
            } else {
                Some(((s.subrange(0, 2), r.subrange(0, n as int)), r.subrange(n as int, r.len() as int)))
            },
        }
    }
}

/// Reads `n` payload entries from the front of `s`.
pub open spec fn parse_items(s: Seq<u8>, n: nat) -> Option<(Seq<(Seq<u8>, Seq<u8>)>, Seq<u8>)>
    decreases n,
{
    if n == 0 {
        Some((Seq::empty(), s))
    } else {
        match parse_items(s, (n - 1) as nat) {
            None => None,
            Some((items, rest)) => match parse_item(rest) {
                None => None,
                Some((it, rest2)) => Some((items.push(it), rest2)),
            },
        }
    }
}

/// Reads a whole commitment: its payload, block number and validator set id;
/// nothing may follow.
pub open spec fn parse_commitment(s: Seq<u8>) -> Option<(Seq<(Seq<u8>, Seq<u8>)>, nat, nat)> {
    match parse_compact(s) {
        None => None,
        Some((n, r)) => match parse_items(r, n) {
            None => None,
            Some((items, r2)) => if r2.len() != 12 {
                None
            } else {
                Some((items, le_value(r2.subrange(0, 4)), le_value(r2.subrange(4, 12))))
            },
        },
    }
}

/// A compact length is read back from its encoding, whatever follows it.
pub proof fn lemma_parse_compact(v: nat, rest: Seq<u8>)
    requires
        v <= u32::MAX,
    ensures
        parse_compact(compact_bytes(v) + rest) == Some((v, rest)),
{
    lemma_pow256_facts();
    let e = compact_bytes(v);
    let s = e + rest;
    if v < 64 {
        assert(s[0] == v * 4);
        assert((v * 4) % 4 == 0 && (v * 4) / 4 == v) by (nonlinear_arith);
        assert(s.subrange(1, s.len() as int) =~= rest);
    } else if v < 16384 {
        lemma_le_value_of_bytes(v * 4 + 1, 2);
        assert(s.subrange(0, 2) =~= e);
        assert(e[0] == ((v * 4 + 1) % 256) as u8);
        assert(((v * 4 + 1) % 256) % 4 == 1 && (v * 4 + 1) / 4 == v) by (nonlinear_arith);
        assert(s.subrange(2, s.len() as int) =~= rest);
    } else if v < 1073741824 {
        lemma_le_value_of_bytes(v * 4 + 2, 4);
        assert(s.subrange(0, 4) =~= e);
        assert(e[0] == ((v * 4 + 2) % 256) as u8);
        assert(((v * 4 + 2) % 256) % 4 == 2 && (v * 4 + 2) / 4 == v) by (nonlinear_arith);
        assert(s.subrange(4, s.len() as int) =~= rest);
    } else {
        lemma_le_value_of_bytes(v, 4);
        assert(s.subrange(1, 5) =~= le_bytes(v, 4));
        assert(s.subrange(5, s.len() as int) =~= rest);
    }
}

/// A payload entry is read back from its encoding, whatever follows it.
pub proof fn lemma_parse_item(item: ([u8; 2], Vec<u8>), rest: Seq<u8>)
    requires
        item.1@.len() <= u32::MAX,
    ensures
        parse_item(payload_item_bytes(item) + rest) == Some(((item.0@, item.1@), rest)),
{
    let s = payload_item_bytes(item) + rest;
    let after_id = compact_bytes(item.1@.len()) + (item.1@ + rest);
    assert(s.subrange(2, s.len() as int) =~= after_id);
    lemma_parse_compact(item.1@.len(), item.1@ + rest);
    let r = item.1@ + rest;
    assert(r.subrange(0, item.1@.len() as int) =~= item.1@);
    assert(r.subrange(item.1@.len() as int, r.len() as int) =~= rest);
    assert(s.subrange(0, 2) =~= item.0@);
}

/// The payload entries are read back from their encodings, whatever follows.
pub proof fn lemma_parse_items(items: Seq<([u8; 2], Vec<u8>)>, rest: Seq<u8>)
    requires
        forall|j: int| 0 <= j < items.len() ==> #[trigger] items[j].1@.len() <= u32::MAX,
    ensures
        parse_items(payload_items_bytes(items) + rest, items.len()) == Some(
            (payload_view(items), rest),
        ),
    decreases items.len(),
{
    if items.len() > 0 {
        let init = items.drop_last();
        let last = items.last();
        assert(init.len() == items.len() - 1);
        assert forall|j: int| 0 <= j < init.len() implies #[trigger] init[j].1@.len() <= u32::MAX by {
            assert(init[j] == items[j]);
        }
        let tail = payload_item_bytes(last) + rest;
        lemma_parse_items(init, tail);
        assert(payload_items_bytes(items) + rest =~= payload_items_bytes(init) + tail);
        assert(items[items.len() - 1].1@.len() <= u32::MAX);
        lemma_parse_item(last, rest);
        assert(payload_view(init).push((last.0@, last.1@)) =~= payload_view(items));
    } else {
        assert(payload_items_bytes(items) + rest =~= rest);
        assert(payload_view(items) =~= Seq::<(Seq<u8>, Seq<u8>)>::empty());
    }
}

/// A commitment is read back from its encoding: decoding the encoding of a
/// commitment gives its payload, block number and validator set id.
pub proof fn lemma_commitment_round_trip(c: Commitment)
    requires
        commitment_encodable(c),
    ensures
        parse_commitment(commitment_bytes(c)) == Some(
            (payload_view(c.payload@), c.block_number as nat, c.validator_set_id as nat),
        ),
{
    lemma_pow256_facts();
    let tail = le_bytes(c.block_number as nat, 4) + le_bytes(c.validator_set_id as nat, 8);
    lemma_le_value_of_bytes(c.block_number as nat, 4);
    lemma_le_value_of_bytes(c.validator_set_id as nat, 8);
    let items_and_tail = payload_items_bytes(c.payload@) + tail;
    assert(commitment_bytes(c) =~= compact_bytes(c.payload@.len()) + items_and_tail);
    lemma_parse_compact(c.payload@.len(), items_and_tail);
    lemma_parse_items(c.payload@, tail);
    assert(tail.subrange(0, 4) =~= le_bytes(c.block_number as nat, 4));
    assert(tail.subrange(4, 12) =~= le_bytes(c.validator_set_id as nat, 8));
}

/// Reads a compact length at `pos`: the length and the position after it.
pub fn decode_compact(bytes: &[u8], pos: usize) -> (r: Option<(usize, usize)>)
    requires
        pos <= bytes@.len(),
    ensures
        match parse_compact(bytes@.subrange(pos as int, bytes@.len() as int)) {
            Some((v, rest)) => r matches Some((v2, q)) && v2 == v && pos <= q <= bytes@.len()
                && rest == bytes@.subrange(q as int, bytes@.len() as int),
            None => r is None,
        },
{
    let len: usize = bytes.len();
    let ghost s = bytes@.subrange(pos as int, len as int);
    if pos >= len {
        return None;
    }
    proof {
        lemma_pow256_facts();
    }
    let b0: u8 = bytes[pos];
    assert(s[0] == b0);
    if b0 % 4 == 0 {
        assert(s.subrange(1, s.len() as int) =~= bytes@.subrange(pos + 1, len as int));
        Some(((b0 / 4) as usize, pos + 1))
    } else if b0 % 4 == 1 {
        if len - pos < 2 {
            return None;
        }
        let x = read_le(bytes, pos, 2);
        assert(s.subrange(0, 2) =~= bytes@.subrange(pos as int, pos + 2));
        proof {
            lemma_le_bytes_of_value(bytes@.subrange(pos as int, pos + 2));
        }
        if x / 4 < 64 {
            return None;
        }
        assert(s.subrange(2, s.len() as int) =~= bytes@.subrange(pos + 2, len as int));
        Some(((x / 4) as usize, pos + 2))
    } else if b0 % 4 == 2 {
        if len - pos < 4 {
            return None;
        }
        let x = read_le(bytes, pos, 4);
        assert(s.subrange(0, 4) =~= bytes@.subrange(pos as int, pos + 4));
        proof {
            lemma_le_bytes_of_value(bytes@.subrange(pos as int, pos + 4));
        }
        if x / 4 < 16384 {
            return None;
        }
        assert(s.subrange(4, s.len() as int) =~= bytes@.subrange(pos + 4, len as int));
        Some(((x / 4) as usize, pos + 4))
    } else {
        if b0 != 3 || len - pos < 5 {
            return None;
        }
        let x = read_le(bytes, pos + 1, 4);
        assert(s.subrange(1, 5) =~= bytes@.subrange(pos + 1, pos + 5));
        proof {
            lemma_le_bytes_of_value(bytes@.subrange(pos + 1, pos + 5));
        }
        if x < 1073741824 {
            return None;
        }
        assert(s.subrange(5, s.len() as int) =~= bytes@.subrange(pos + 5, len as int));
        Some((x as usize, pos + 5))
    }
}

/// Reads a payload entry at `pos`: the entry and the position after it.
pub fn decode_payload_item(bytes: &[u8], pos: usize) -> (r: Option<(([u8; 2], Vec<u8>), usize)>)
    requires
        pos <= bytes@.len(),
    ensures
        match parse_item(bytes@.subrange(pos as int, bytes@.len() as int)) {
            Some((it, rest)) => r matches Some((item, q)) && item.0@ == it.0 && item.1@ == it.1
                && pos <= q <= bytes@.len() && rest == bytes@.subrange(q as int, bytes@.len() as int),
            None => r is None,
        },
{
    let len: usize = bytes.len();
    let ghost s = bytes@.subrange(pos as int, len as int);
    if len - pos < 2 {
        return None;
    }
    assert(s.subrange(2, s.len() as int) =~= bytes@.subrange(pos + 2, len as int));
    let (n, start) = match decode_compact(bytes, pos + 2) {
        Some(v) => v,
        None => {
            return None;
        },
    };
    if len - start < n {
        return None;
    }
    let ghost r = bytes@.subrange(start as int, len as int);
    let mut id: [u8; 2] = [0u8; 2];
    id.set(0, bytes[pos]);
    id.set(1, bytes[pos + 1]);
    assert(id@ =~= s.subrange(0, 2));
    let value = copy_range(bytes, start, start + n);
    assert(value@ =~= r.subrange(0, n as int));
    assert(r.subrange(n as int, r.len() as int) =~= bytes@.subrange(start + n, len as int));
    Some(((id, value), start + n))
}

proof fn lemma_parse_items_stops(s: Seq<u8>, i: nat, n: nat)
    requires
        i <= n,
        parse_items(s, i) is None,
    ensures
        parse_items(s, n) is None,
    decreases n,
{
    if i < n {
        lemma_parse_items_stops(s, i, (n - 1) as nat);
    }
}

/// Decodes a commitment; `None` where the bytes are no encoding of one.
pub fn decode_commitment(bytes: &[u8]) -> (r: Option<Commitment>)
    ensures
        match parse_commitment(bytes@) {
            Some((items, block, set_id)) => r matches Some(c) && payload_view(c.payload@) == items
                && c.block_number == block && c.validator_set_id == set_id,
            None => r is None,
        },
{
    let len: usize = bytes.len();
    assert(bytes@.subrange(0, len as int) =~= bytes@);
    let (n, first) = match decode_compact(bytes, 0) {
        Some(v) => v,
        None => {
            return None;
        },
    };
    let ghost r0 = bytes@.subrange(first as int, len as int);
    let mut payload: Vec<([u8; 2], Vec<u8>)> = Vec::new();
    let mut pos: usize = first;
    let mut i: usize = 0;
    assert(payload_view(payload@) =~= Seq::<(Seq<u8>, Seq<u8>)>::empty());
    while i < n
        invariant
            i <= n,
            first <= pos <= len == bytes@.len(),
            r0 == bytes@.subrange(first as int, len as int),
            parse_compact(bytes@) == Some((n as nat, r0)),
            parse_items(r0, i as nat) == Some(
                (payload_view(payload@), bytes@.subrange(pos as int, len as int)),
            ),
        decreases n - i,
    {
        match decode_payload_item(bytes, pos) {
            Some((item, q)) => {
                let ghost before = payload@;
                payload.push(item);
                assert(payload_view(payload@) =~= payload_view(before).push((item.0@, item.1@)));
                pos = q;
            },
            None => {
                proof {
                    assert(parse_item(bytes@.subrange(pos as int, len as int)) is None);
                    assert(((i + 1) as nat - 1) as nat == i as nat);
                    assert(parse_items(r0, (i + 1) as nat) is None);
                    lemma_parse_items_stops(r0, (i + 1) as nat, n as nat);
                }
                return None;
            },
        }
        i = i + 1;
    }
    if len - pos != 12 {
        return None;
    }
    let block = read_le(bytes, pos, 4);
    let set_id = read_le(bytes, pos + 4, 8);
    proof {
        lemma_pow256_facts();
        let tail = bytes@.subrange(pos as int, len as int);
        assert(tail.subrange(0, 4) =~= bytes@.subrange(pos as int, pos + 4));
        assert(tail.subrange(4, 12) =~= bytes@.subrange(pos + 4, pos + 12));
        lemma_le_bytes_of_value(tail.subrange(0, 4));
    }
    Some(Commitment { payload, block_number: block as u32, validator_set_id: set_id })
}

} // verus!
