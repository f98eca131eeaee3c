//! The library's view of the chain store: block headers, block
//! presence, per-shard state headers, and the parts column.
//!
//! The parts column is a byte-keyed map, keyed exactly as the real
//! column is: by the serialized `(sync_hash, shard_id, part_index)`
//! triple. Later writes override earlier ones.

use vstd::prelude::*;
use crate::types::{CryptoHash, EpochId, ShardId, StateHeaderInfo};
use crate::keycodec::{spec_state_part_key, state_part_key, lemma_state_part_key_injective};

verus! {

/// What the sync logic reads of a block header: its own hash, the hash
/// of the previous block, the epoch it belongs to, and its height.
#[derive(Clone, Copy, PartialEq, Eq, Structural, Debug)]
pub struct BlockHeader {
    pub hash: CryptoHash,
    pub prev_hash: CryptoHash,
    pub epoch_id: EpochId,
    pub height: u64,
}

/// Compare two byte vectors for equality.
fn bytes_eq(a: &Vec<u8>, b: &Vec<u8>) -> (r: bool)
    ensures
        r <==> a@ == b@,
{
    if a.len() != b.len() {
        assert(a@.len() != b@.len());
        return false;
    }
    let mut i: usize = 0;
    while i < a.len()
        invariant
            i <= a.len(),
            a.len() == b.len(),
            forall|j: int| 0 <= j < i ==> a@[j] == b@[j],
        decreases a.len() - i,
    {
        if a[i] != b[i] {
            return false;
        }
        i = i + 1;
    }
    proof {
        assert(a@ =~= b@);
    }
    true
}

spec fn parts_get(s: Seq<(Vec<u8>, Vec<u8>)>, k: Seq<u8>) -> Option<Seq<u8>>
    decreases s.len(),
{
    if s.len() == 0 {
        None
    } else if s.last().0@ == k {
        Some(s.last().1@)
    } else {
        parts_get(s.drop_last(), k)
    }
}

spec fn parts_remove(s: Seq<(Vec<u8>, Vec<u8>)>, k: Seq<u8>) -> Seq<(Vec<u8>, Vec<u8>)>
    decreases s.len(),
{
    if s.len() == 0 {
        s
    } else {
        let r = parts_remove(s.drop_last(), k);
        if s.last().0@ == k {
            r
        } else {
            r.push(s.last())
        }
    }
}

proof fn lemma_parts_remove_get(s: Seq<(Vec<u8>, Vec<u8>)>, k: Seq<u8>, k2: Seq<u8>)
    ensures
        parts_get(parts_remove(s, k), k2) == if k2 == k {
            None
        } else {
            parts_get(s, k2)
        },
    decreases s.len(),
{
    if s.len() == 0 {
    } else {
        lemma_parts_remove_get(s.drop_last(), k, k2);
        let r = parts_remove(s.drop_last(), k);
        if s.last().0@ == k {
        } else {
            assert(r.push(s.last()).drop_last() =~= r);
            assert(r.push(s.last()).last() == s.last());
        }
    }
}

/// The model of the `StateParts` storage column: raw part bytes under
/// byte keys.
pub struct PartStore {
    entries: Vec<(Vec<u8>, Vec<u8>)>,
}

impl PartStore {
    /// The value stored under `k`, if any.
    pub closed spec fn spec_get(self, k: Seq<u8>) -> Option<Seq<u8>> {
        parts_get(self.entries@, k)
    }

    /// An empty column.
    pub fn new() -> (r: Self)
        ensures
            forall|k: Seq<u8>| r.spec_get(k) is None,
    {
        PartStore { entries: Vec::new() }
    }

    /// The value stored under `key`, if any.
    pub fn get(&self, key: &Vec<u8>) -> (r: Option<&Vec<u8>>)
        ensures
            match r {
                Some(v) => self.spec_get(key@) == Some(v@),
                None => self.spec_get(key@) is None,
            },
    {
        let n = self.entries.len();
        let mut i: usize = n;
        proof {
            assert(self.entries@.take(n as int) =~= self.entries@);
        }
        while i > 0
            invariant
                i <= n,
                n == self.entries.len(),
                parts_get(self.entries@, key@) == parts_get(self.entries@.take(i as int), key@),
            decreases i,
        {
            i = i - 1;
            proof {
                assert(self.entries@.take((i + 1) as int).last() == self.entries@[i as int]);
                assert(self.entries@.take((i + 1) as int).drop_last() =~= self.entries@.take(
                    i as int,
                ));
            }
            if bytes_eq(&self.entries[i].0, key) {
                return Some(&self.entries[i].1);
            }
        }
        None
    }

    /// Store `value` under `key`, replacing whatever was there.
    pub fn set(&mut self, key: Vec<u8>, value: Vec<u8>)
        ensures
            final(self).spec_get(key@) == Some(value@),
            forall|k: Seq<u8>| k != key@ ==> final(self).spec_get(k) == old(self).spec_get(k),
    {
        let ghost k0 = key@;
        let ghost v0 = value@;
        let ghost s0 = self.entries@;
        self.entries.push((key, value));
        proof {
            assert(self.entries@.drop_last() =~= s0);
            assert(self.entries@.last().0@ == k0);
            assert(self.entries@.last().1@ == v0);
        }
    }

    /// Drop whatever is stored under `key`.
    pub fn remove(&mut self, key: &Vec<u8>)
        ensures
            final(self).spec_get(key@) is None,
            forall|k: Seq<u8>| k != key@ ==> final(self).spec_get(k) == old(self).spec_get(k),
    {
        let ghost s0 = self.entries@;
        let ghost n = s0.len() as int;
        let mut aux: Vec<(Vec<u8>, Vec<u8>)> = Vec::new();
        loop
            invariant
                n == s0.len(),
                aux.len() + self.entries.len() == n,
                forall|t: int| 0 <= t < self.entries@.len() ==> self.entries@[t] == s0[t],
                forall|t: int| 0 <= t < aux@.len() ==> aux@[t] == s0[n - 1 - t],
            ensures
                self.entries@.len() == 0,
                aux@.len() == n,
                forall|t: int| 0 <= t < aux@.len() ==> aux@[t] == s0[n - 1 - t],
            decreases self.entries.len(),
        {
            let ghost pre_entries = self.entries@;
            let ghost pre_aux = aux@;
            match self.entries.pop() {
                Some(e) => {
                    proof {
                        let m = pre_entries.len() as int;
                        assert(e == pre_entries[m - 1]);
                        assert(e == s0[m - 1]);
                    }
                    aux.push(e);
                }
                None => {
                    break;
                }
            }
        }
        let mut j: usize = 0;
        proof {
            assert(self.entries@ =~= parts_remove(s0.take(0), key@));
        }
        loop
            invariant
                n == s0.len(),
                n <= usize::MAX,
                j <= n,
                aux.len() == n - j,
                forall|t: int| 0 <= t < aux@.len() ==> aux@[t] == s0[n - 1 - t],
                self.entries@ == parts_remove(s0.take(j as int), key@),
            ensures
                self.entries@ == parts_remove(s0.take(n), key@),
            decreases aux.len(),
        {
            let ghost pre_aux = aux@;
            match aux.pop() {
                Some(e) => {
                    proof {
                        let m = pre_aux.len() as int;
                        assert(m == n - j);
                        assert(m > 0);
                        assert(j < n);
                        assert(e == pre_aux[m - 1]);
                        assert(e == s0[n - 1 - (m - 1)]);
                        assert(n - 1 - (m - 1) == j as int);
                        assert(s0.take((j + 1) as int).len() == j + 1);
                        assert(s0.take((j + 1) as int).drop_last() =~= s0.take(j as int));
                        assert(s0.take((j + 1) as int).last() == s0[j as int]);
                    }
                    let ghost pre_out = self.entries@;
                    if !bytes_eq(&e.0, key) {
                        self.entries.push(e);
                        proof {
                            assert(self.entries@ == pre_out.push(e));
                        }
                    }
                    j = j + 1;
                }
                None => {
                    break;
                }
            }
        }
        proof {
            assert(s0.take(n) =~= s0);
            assert(self.entries@ == parts_remove(s0, key@));
            assert forall|k: Seq<u8>| true implies parts_get(parts_remove(s0, key@), k) == (if k
                == key@ {
                None
            } else {
                parts_get(s0, k)
            }) by {
                lemma_parts_remove_get(s0, key@, k);
            }
        }
    }
}

spec fn headers_get(s: Seq<BlockHeader>, h: CryptoHash) -> Option<BlockHeader>
    decreases s.len(),
{
    if s.len() == 0 {
        None
    } else if s.last().hash == h {
        Some(s.last())
    } else {
        headers_get(s.drop_last(), h)
    }
}

spec fn state_headers_get(
    s: Seq<(ShardId, CryptoHash, StateHeaderInfo)>,
    shard_id: ShardId,
    hash: CryptoHash,
) -> Option<StateHeaderInfo>
    decreases s.len(),
{
    if s.len() == 0 {
        None
    } else if s.last().0 == shard_id && s.last().1 == hash {
        Some(s.last().2)
    } else {
        state_headers_get(s.drop_last(), shard_id, hash)
    }
}

/// The library's model of the chain store.
pub struct ChainStore {
    headers: Vec<BlockHeader>,
    blocks: Vec<CryptoHash>,
    state_headers: Vec<(ShardId, CryptoHash, StateHeaderInfo)>,
    parts: PartStore,
}

impl ChainStore {
    /// The block header stored under `h`, if any.
    pub closed spec fn spec_header(self, h: CryptoHash) -> Option<BlockHeader> {
        headers_get(self.headers@, h)
    }

    /// Whether the full block `h` is locally present.
    pub closed spec fn spec_block_exists(self, h: CryptoHash) -> bool {
        self.blocks@.contains(h)
    }

    /// The state header stored for `(shard_id, sync_hash)`, if any.
    pub closed spec fn spec_state_header(self, shard_id: ShardId, sync_hash: CryptoHash) -> Option<
        StateHeaderInfo,
    > {
        state_headers_get(self.state_headers@, shard_id, sync_hash)
    }

    /// The bytes of one persisted state part, if present.
    pub open spec fn spec_part(self, sync_hash: CryptoHash, shard_id: ShardId, part_idx: u64) -> Option<
        Seq<u8>,
    > {
        self.spec_part_raw(spec_state_part_key(sync_hash, shard_id, part_idx))
    }

    /// The bytes stored in the parts column under a raw key.
    pub closed spec fn spec_part_raw(self, k: Seq<u8>) -> Option<Seq<u8>> {
        self.parts.spec_get(k)
    }

    /// Every stored state header fits this machine: its part count is
    /// expressible as a length.
    pub open spec fn state_headers_wf(self) -> bool {
        forall|s: ShardId, h: CryptoHash|
            match #[trigger] self.spec_state_header(s, h) {
                Some(info) => info.num_parts <= usize::MAX,
                None => true,
            }
    }

    /// Every stored prev-link points at a lower block: following
    /// `prev_hash` strictly descends in height.
    pub open spec fn headers_wf(self) -> bool {
        forall|h: CryptoHash|
            #![trigger self.spec_header(h)]
            match self.spec_header(h) {
                Some(bh) => match self.spec_header(bh.prev_hash) {
                    Some(ph) => ph.height < bh.height,
                    None => true,
                },
                None => true,
            }
    }

    /// An empty store.
    pub fn new() -> (r: Self)
        ensures
            forall|h: CryptoHash| r.spec_header(h) is None,
            forall|h: CryptoHash| !r.spec_block_exists(h),
            forall|s: ShardId, h: CryptoHash| r.spec_state_header(s, h) is None,
            forall|k: Seq<u8>| r.spec_part_raw(k) is None,
            r.headers_wf(),
            r.state_headers_wf(),
    {
        ChainStore {
            headers: Vec::new(),
            blocks: Vec::new(),
            state_headers: Vec::new(),
            parts: PartStore::new(),
        }
    }

    /// Record a block header.
    pub fn insert_block_header(&mut self, header: BlockHeader)
        ensures
            final(self).spec_header(header.hash) == Some(header),
            forall|h: CryptoHash|
                h != header.hash ==> final(self).spec_header(h) == old(self).spec_header(h),
            forall|h: CryptoHash|
                final(self).spec_block_exists(h) == old(self).spec_block_exists(h),
            forall|s: ShardId, h: CryptoHash|
                final(self).spec_state_header(s, h) == old(self).spec_state_header(s, h),
            forall|k: Seq<u8>| final(self).spec_part_raw(k) == old(self).spec_part_raw(k),
    {
        let ghost s0 = self.headers@;
        self.headers.push(header);
        proof {
            assert(self.headers@.drop_last() =~= s0);
            assert(forall|h: CryptoHash|
                self.blocks@.contains(h) == old(self).blocks@.contains(h));
        }
    }

    /// Record that the full block `h` is locally present.
    pub fn insert_block(&mut self, h: CryptoHash)
        ensures
            final(self).spec_block_exists(h),
            forall|h2: CryptoHash|
                h2 != h ==> final(self).spec_block_exists(h2) == old(self).spec_block_exists(h2),
            forall|h2: CryptoHash| final(self).spec_header(h2) == old(self).spec_header(h2),
            forall|s: ShardId, h2: CryptoHash|
                final(self).spec_state_header(s, h2) == old(self).spec_state_header(s, h2),
            forall|k: Seq<u8>| final(self).spec_part_raw(k) == old(self).spec_part_raw(k),
    {
        let ghost s0 = self.blocks@;
        self.blocks.push(h);
        proof {
            assert(self.blocks@.last() == h);
            assert forall|h2: CryptoHash| h2 != h implies self.blocks@.contains(h2) == s0.contains(
                h2,
            ) by {
                assert(self.blocks@.drop_last() =~= s0);
                if s0.contains(h2) {
                    let i = choose|i: int| 0 <= i < s0.len() && s0[i] == h2;
                    assert(self.blocks@[i] == h2);
                }
                if self.blocks@.contains(h2) {
                    let i = choose|i: int| 0 <= i < self.blocks@.len() && self.blocks@[i] == h2;
                    assert(i < s0.len());
                    assert(s0[i] == h2);
                }
            }
        }
    }

    /// The block header stored under `h`.
    pub fn get_block_header(&self, h: CryptoHash) -> (r: Option<BlockHeader>)
        ensures
            r == self.spec_header(h),
    {
        let n = self.headers.len();
        let mut i: usize = n;
        proof {
            assert(self.headers@.take(n as int) =~= self.headers@);
        }
        while i > 0
            invariant
                i <= n,
                n == self.headers.len(),
                headers_get(self.headers@, h) == headers_get(self.headers@.take(i as int), h),
            decreases i,
        {
            i = i - 1;
            proof {
                assert(self.headers@.take((i + 1) as int).last() == self.headers@[i as int]);
                assert(self.headers@.take((i + 1) as int).drop_last() =~= self.headers@.take(
                    i as int,
                ));
            }
            if self.headers[i].hash == h {
                return Some(self.headers[i]);
            }
        }
        None
    }

    /// Whether the full block `h` is locally present.
    pub fn block_exists(&self, h: CryptoHash) -> (r: bool)
        ensures
            r == self.spec_block_exists(h),
    {
        let n = self.blocks.len();
        let mut i: usize = 0;
        while i < n
            invariant
                i <= n,
                n == self.blocks.len(),
                forall|j: int| 0 <= j < i ==> self.blocks@[j] != h,
            decreases n - i,
        {
            if self.blocks[i] == h {
                return true;
            }
            i = i + 1;
        }
        false
    }

    /// The state header stored for `(shard_id, sync_hash)`.
    pub fn get_state_header(&self, shard_id: ShardId, sync_hash: CryptoHash) -> (r: Option<
        StateHeaderInfo,
    >)
        ensures
            r == self.spec_state_header(shard_id, sync_hash),
    {
        let n = self.state_headers.len();
        let mut i: usize = n;
        proof {
            assert(self.state_headers@.take(n as int) =~= self.state_headers@);
        }
        while i > 0
            invariant
                i <= n,
                n == self.state_headers.len(),
                state_headers_get(self.state_headers@, shard_id, sync_hash) == state_headers_get(
                    self.state_headers@.take(i as int),
                    shard_id,
                    sync_hash,
                ),
            decreases i,
        {
            i = i - 1;
            proof {
                assert(self.state_headers@.take((i + 1) as int).last() == self.state_headers@[
                    i as int
                ]);
                assert(self.state_headers@.take((i + 1) as int).drop_last()
                    =~= self.state_headers@.take(i as int));
            }
            let e = &self.state_headers[i];
            if e.0 == shard_id && e.1 == sync_hash {
                return Some(e.2);
            }
        }
        None
    }

    /// Store the state header for `(shard_id, sync_hash)`. The part
    /// count must be expressible as a length on this machine.
    pub fn set_state_header(&mut self, shard_id: ShardId, sync_hash: CryptoHash, info: StateHeaderInfo)
        requires
            info.num_parts <= usize::MAX,
        ensures
            old(self).state_headers_wf() ==> final(self).state_headers_wf(),
            final(self).spec_state_header(shard_id, sync_hash) == Some(info),
            forall|s: ShardId, h: CryptoHash|
                !(s == shard_id && h == sync_hash) ==> final(self).spec_state_header(s, h) == old(
                    self,
                ).spec_state_header(s, h),
            forall|h: CryptoHash| final(self).spec_header(h) == old(self).spec_header(h),
            forall|h: CryptoHash|
                final(self).spec_block_exists(h) == old(self).spec_block_exists(h),
            forall|k: Seq<u8>| final(self).spec_part_raw(k) == old(self).spec_part_raw(k),
    {
        let ghost s0 = self.state_headers@;
        self.state_headers.push((shard_id, sync_hash, info));
        proof {
            assert(self.state_headers@.drop_last() =~= s0);
            if old(self).state_headers_wf() {
                assert forall|s: ShardId, h: CryptoHash|
                    match #[trigger] self.spec_state_header(s, h) {
                        Some(i) => i.num_parts <= usize::MAX,
                        None => true,
                    } by {
                    if !(s == shard_id && h == sync_hash) {
                        assert(self.spec_state_header(s, h) == old(self).spec_state_header(s, h));
                        assert(match old(self).spec_state_header(s, h) {
                            Some(i) => i.num_parts <= usize::MAX,
                            None => true,
                        });
                    }
                }
            }
        }
    }

    /// Persist the bytes of one state part under its key.
    pub fn set_state_part(&mut self, sync_hash: CryptoHash, shard_id: ShardId, part_idx: u64, data: &Vec<u8>)
        ensures
            final(self).spec_part(sync_hash, shard_id, part_idx) == Some(data@),
            forall|h: CryptoHash, s: ShardId, i: u64|
                !(h == sync_hash && s == shard_id && i == part_idx) ==> final(self).spec_part(
                    h,
                    s,
                    i,
                ) == old(self).spec_part(h, s, i),
            forall|h: CryptoHash| final(self).spec_header(h) == old(self).spec_header(h),
            forall|h: CryptoHash|
                final(self).spec_block_exists(h) == old(self).spec_block_exists(h),
            forall|s: ShardId, h: CryptoHash|
                final(self).spec_state_header(s, h) == old(self).spec_state_header(s, h),
    {
        let key = state_part_key(sync_hash, shard_id, part_idx);
        let mut value: Vec<u8> = Vec::new();
        value.extend_from_slice(data.as_slice());
        proof {
            assert(value@ =~= data@);
        }
        self.parts.set(key, value);
        proof {
            assert forall|h: CryptoHash, s: ShardId, i: u64|
                !(h == sync_hash && s == shard_id && i == part_idx) implies final(self).spec_part(
                h,
                s,
                i,
            ) == old(self).spec_part(h, s, i) by {
                if spec_state_part_key(h, s, i) == spec_state_part_key(
                    sync_hash,
                    shard_id,
                    part_idx,
                ) {
                    lemma_state_part_key_injective(h, s, i, sync_hash, shard_id, part_idx);
                }
            }
        }
    }

    /// The bytes of one persisted state part.
    pub fn get_state_part(&self, sync_hash: CryptoHash, shard_id: ShardId, part_idx: u64) -> (r:
        Option<&Vec<u8>>)
        ensures
            match r {
                Some(v) => self.spec_part(sync_hash, shard_id, part_idx) == Some(v@),
                None => self.spec_part(sync_hash, shard_id, part_idx) is None,
            },
    {
        let key = state_part_key(sync_hash, shard_id, part_idx);
        self.parts.get(&key)
    }

    /// Drop every persisted part of `shard_id` for `sync_hash` with
    /// index below `num_parts`: the destructive step of a restart after
    /// a failed finalization.
    pub fn clear_downloaded_parts(&mut self, sync_hash: CryptoHash, shard_id: ShardId, num_parts: u64)
        ensures
            forall|i: u64| i < num_parts ==> final(self).spec_part(sync_hash, shard_id, i) is None,
            forall|h: CryptoHash, s: ShardId, i: u64|
                !(h == sync_hash && s == shard_id && i < num_parts) ==> final(self).spec_part(
                    h,
                    s,
                    i,
                ) == old(self).spec_part(h, s, i),
            forall|h: CryptoHash| final(self).spec_header(h) == old(self).spec_header(h),
            forall|h: CryptoHash|
                final(self).spec_block_exists(h) == old(self).spec_block_exists(h),
            forall|s: ShardId, h: CryptoHash|
                final(self).spec_state_header(s, h) == old(self).spec_state_header(s, h),
    {
        let mut p: u64 = 0;
        while p < num_parts
            invariant
                p <= num_parts,
                forall|i: u64| i < p ==> self.spec_part(sync_hash, shard_id, i) is None,
                forall|h: CryptoHash, s: ShardId, i: u64|
                    !(h == sync_hash && s == shard_id && i < p) ==> self.spec_part(h, s, i) == old(
                        self,
                    ).spec_part(h, s, i),
                forall|h: CryptoHash| self.spec_header(h) == old(self).spec_header(h),
                forall|h: CryptoHash|
                    self.spec_block_exists(h) == old(self).spec_block_exists(h),
                forall|s: ShardId, h: CryptoHash|
                    self.spec_state_header(s, h) == old(self).spec_state_header(s, h),
            decreases num_parts - p,
        {
            let key = state_part_key(sync_hash, shard_id, p);
            let ghost before = *self;
            self.parts.remove(&key);
            proof {
                assert forall|h: CryptoHash, s: ShardId, i: u64|
                    !(h == sync_hash && s == shard_id && i == p) implies self.spec_part(h, s, i)
                    == before.spec_part(h, s, i) by {
                    if spec_state_part_key(h, s, i) == spec_state_part_key(sync_hash, shard_id, p) {
                        lemma_state_part_key_injective(h, s, i, sync_hash, shard_id, p);
                    }
                }
                assert(self.spec_part(sync_hash, shard_id, p) is None);
                assert forall|i: u64| i < p implies self.spec_part(sync_hash, shard_id, i) is None by {
                    assert(before.spec_part(sync_hash, shard_id, i) is None);
                    assert(self.spec_part(sync_hash, shard_id, i) == before.spec_part(
                        sync_hash,
                        shard_id,
                        i,
                    ));
                }
            }
            p = p + 1;
        }
    }
}

} // verus!

