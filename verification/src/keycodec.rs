//! The byte key under which a state part is persisted.
//!
//! The parts column is keyed by the serialized triple
//! `(sync_hash, shard_id, part_index)`.

use vstd::prelude::*;
use vstd::bytes::{spec_u64_to_le_bytes, lemma_auto_spec_u64_to_from_le_bytes, spec_u64_from_le_bytes};
use crate::types::{CryptoHash, ShardId};

verus! {

/// The bytes of the storage key of part `part_idx` of shard `shard_id`
/// for the sync target `sync_hash`: the three identifiers, each as eight
/// little-endian bytes, in order.
pub open spec fn spec_state_part_key(sync_hash: CryptoHash, shard_id: ShardId, part_idx: u64) -> Seq<
    u8,
> {
    spec_u64_to_le_bytes(sync_hash) + spec_u64_to_le_bytes(shard_id) + spec_u64_to_le_bytes(
        part_idx,
    )
}

/// Relies on `borsh::to_vec`: a tuple serializes as its fields in order,
/// an unsigned 64-bit integer as its eight little-endian bytes, and
/// serialization into a fresh vector cannot fail.
#[verifier::external_body]
fn borsh_encode_part_key(sync_hash: u64, shard_id: u64, part_idx: u64) -> (r: Vec<u8>)
    ensures
        r@ == spec_state_part_key(sync_hash, shard_id, part_idx),
{
    borsh::to_vec(&(sync_hash, shard_id, part_idx)).unwrap()
}

/// The storage key of one state part.
pub fn state_part_key(sync_hash: CryptoHash, shard_id: ShardId, part_idx: u64) -> (r: Vec<u8>)
    ensures
        r@ == spec_state_part_key(sync_hash, shard_id, part_idx),
{
    borsh_encode_part_key(sync_hash, shard_id, part_idx)
}

/// Distinct parts never share a storage key.
pub proof fn lemma_state_part_key_injective(
    h1: CryptoHash,
    s1: ShardId,
    i1: u64,
    h2: CryptoHash,
    s2: ShardId,
    i2: u64,
)
    requires
        spec_state_part_key(h1, s1, i1) == spec_state_part_key(h2, s2, i2),
    ensures
        h1 == h2,
        s1 == s2,
        i1 == i2,
{
    lemma_auto_spec_u64_to_from_le_bytes();
    let k1 = spec_state_part_key(h1, s1, i1);
    let k2 = spec_state_part_key(h2, s2, i2);
    assert(k1.subrange(0, 8) =~= spec_u64_to_le_bytes(h1));
    assert(k1.subrange(8, 16) =~= spec_u64_to_le_bytes(s1));
    assert(k1.subrange(16, 24) =~= spec_u64_to_le_bytes(i1));
    assert(k2.subrange(0, 8) =~= spec_u64_to_le_bytes(h2));
    assert(k2.subrange(8, 16) =~= spec_u64_to_le_bytes(s2));
    assert(k2.subrange(16, 24) =~= spec_u64_to_le_bytes(i2));
    assert(spec_u64_from_le_bytes(spec_u64_to_le_bytes(h1)) == spec_u64_from_le_bytes(
        spec_u64_to_le_bytes(h2),
    ));
    assert(spec_u64_from_le_bytes(spec_u64_to_le_bytes(s1)) == spec_u64_from_le_bytes(
        spec_u64_to_le_bytes(s2),
    ));
    assert(spec_u64_from_le_bytes(spec_u64_to_le_bytes(i1)) == spec_u64_from_le_bytes(
        spec_u64_to_le_bytes(i2),
    ));
}

/// Distinct parts never share a storage key: persisting one part can
/// never clobber another.
pub proof fn lemma_distinct_parts_do_not_collide(
    h1: CryptoHash,
    s1: ShardId,
    i1: u64,
    h2: CryptoHash,
    s2: ShardId,
    i2: u64,
)
    requires
        !(h1 == h2 && s1 == s2 && i1 == i2),
    ensures
        spec_state_part_key(h1, s1, i1) != spec_state_part_key(h2, s2, i2),
{
    if spec_state_part_key(h1, s1, i1) == spec_state_part_key(h2, s2, i2) {
        lemma_state_part_key_injective(h1, s1, i1, h2, s2, i2);
    }
}

} // verus!
