//! Validation of downloaded artifacts. Checking a header or a part
//! against the shard's state root is the runtime's work; the library
//! only promises never to persist or accept what the validator refused.

use vstd::prelude::*;
use crate::types::{CryptoHash, PartId, ShardId, StateHeaderInfo, StateRoot};

verus! {

/// The runtime's judgment on downloaded artifacts. The library states
/// nothing of how the judgment is made; it is sound for any
/// implementation.
pub trait SyncValidator {
    /// Whether a downloaded state header is acceptable for the shard.
    fn validate_state_header(
        &self,
        shard_id: ShardId,
        sync_hash: CryptoHash,
        header: &StateHeaderInfo,
    ) -> bool;

    /// Whether the bytes of one part match the shard's state root.
    fn validate_state_part(&self, state_root: StateRoot, part_id: PartId, data: &Vec<u8>) -> bool;
}

} // verus!
