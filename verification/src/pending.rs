//! The pending-request ledger: for each `(peer, shard)` pair, how many
//! part requests are outstanding and until when the peer is excused from
//! new ones.

use vstd::prelude::*;
use crate::types::{PeerId, ShardId, Timestamp, TimeDelta, MAX_STATE_PART_REQUEST};

verus! {

/// Outstanding part requests to one peer for one shard.
#[derive(Clone, Copy, PartialEq, Eq, Structural, Debug)]
pub struct PendingRequestStatus {
    /// Number of parts requested from the peer and not yet answered.
    pub missing_parts: u64,
    /// When the entry expires and may be swept.
    pub wait_until: Timestamp,
}

/// `a + b`, stopping at the largest timestamp.
pub open spec fn spec_sat_add(a: Timestamp, b: TimeDelta) -> Timestamp {
    if a + b > u64::MAX {
        u64::MAX
    } else {
        (a + b) as u64
    }
}

impl PendingRequestStatus {
    /// A fresh entry: one part outstanding, excused until the timeout
    /// elapses.
    pub fn new(now: Timestamp, timeout: TimeDelta) -> (r: Self)
        ensures
            r.missing_parts == 1,
            r.wait_until == spec_sat_add(now, timeout),
    {
        PendingRequestStatus { missing_parts: 1, wait_until: now.saturating_add(timeout) }
    }

    /// Whether the entry's deadline has passed.
    pub fn expired(&self, now: Timestamp) -> (r: bool)
        ensures
            r == (now > self.wait_until),
    {
        now > self.wait_until
    }
}

type LedgerSeq = Seq<(PeerId, ShardId, PendingRequestStatus)>;

spec fn ledger_get(s: LedgerSeq, peer: PeerId, shard: ShardId) -> Option<PendingRequestStatus>
    decreases s.len(),
{
    if s.len() == 0 {
        None
    } else if s.last().0 == peer && s.last().1 == shard {
        Some(s.last().2)
    } else {
        ledger_get(s.drop_last(), peer, shard)
    }
}

spec fn ledger_has(s: LedgerSeq, peer: PeerId, shard: ShardId) -> bool {
    exists|i: int| 0 <= i < s.len() && s[i].0 == peer && s[i].1 == shard
}

spec fn ledger_distinct(s: LedgerSeq) -> bool {
    forall|i: int, j: int|
        0 <= i < j < s.len() ==> !(s[i].0 == s[j].0 && s[i].1 == s[j].1)
}

proof fn lemma_ledger_absent(s: LedgerSeq, peer: PeerId, shard: ShardId)
    requires
        !ledger_has(s, peer, shard),
    ensures
        ledger_get(s, peer, shard) is None,
    decreases s.len(),
{
    if s.len() == 0 {
    } else {
        assert(!(s.last().0 == peer && s.last().1 == shard)) by {
            assert(s[s.len() - 1] == s.last());
        }
        assert(!ledger_has(s.drop_last(), peer, shard)) by {
            if ledger_has(s.drop_last(), peer, shard) {
                let i = choose|i: int|
                    0 <= i < s.drop_last().len() && s.drop_last()[i].0 == peer
                        && s.drop_last()[i].1 == shard;
                assert(s[i] == s.drop_last()[i]);
            }
        }
        lemma_ledger_absent(s.drop_last(), peer, shard);
    }
}

spec fn ledger_remove(s: LedgerSeq, peer: PeerId, shard: ShardId) -> LedgerSeq
    decreases s.len(),
{
    if s.len() == 0 {
        s
    } else {
        let r = ledger_remove(s.drop_last(), peer, shard);
        if s.last().0 == peer && s.last().1 == shard {
            r
        } else {
            r.push(s.last())
        }
    }
}

proof fn lemma_ledger_remove_get(
    s: LedgerSeq,
    peer: PeerId,
    shard: ShardId,
    p2: PeerId,
    s2: ShardId,
)
    ensures
        ledger_get(ledger_remove(s, peer, shard), p2, s2) == if p2 == peer && s2 == shard {
            None
        } else {
            ledger_get(s, p2, s2)
        },
    decreases s.len(),
{
    if s.len() == 0 {
    } else {
        lemma_ledger_remove_get(s.drop_last(), peer, shard, p2, s2);
        let r = ledger_remove(s.drop_last(), peer, shard);
        if s.last().0 == peer && s.last().1 == shard {
        } else {
            assert(r.push(s.last()).drop_last() =~= r);
            assert(r.push(s.last()).last() == s.last());
        }
    }
}

proof fn lemma_ledger_remove_props(s: LedgerSeq, peer: PeerId, shard: ShardId)
    ensures
        forall|t: int|
            0 <= t < ledger_remove(s, peer, shard).len() ==> !(
            #[trigger] ledger_remove(s, peer, shard)[t].0 == peer && ledger_remove(
                s,
                peer,
                shard,
            )[t].1 == shard),
        forall|t: int|
            0 <= t < ledger_remove(s, peer, shard).len() ==> ledger_has(
                s,
                #[trigger] ledger_remove(s, peer, shard)[t].0,
                ledger_remove(s, peer, shard)[t].1,
            ),
        ledger_distinct(s) ==> ledger_distinct(ledger_remove(s, peer, shard)),
    decreases s.len(),
{
    if s.len() == 0 {
    } else {
        lemma_ledger_remove_props(s.drop_last(), peer, shard);
        let d = s.drop_last();
        let r0 = ledger_remove(d, peer, shard);
        let r = ledger_remove(s, peer, shard);
        assert forall|t: int| 0 <= t < d.len() implies d[t] == s[t] by {}
        assert forall|t: int|
            0 <= t < r0.len() implies ledger_has(s, #[trigger] r0[t].0, r0[t].1) by {
            assert(ledger_has(d, r0[t].0, r0[t].1));
            let i = choose|i: int| 0 <= i < d.len() && d[i].0 == r0[t].0 && d[i].1 == r0[t].1;
            assert(s[i] == d[i]);
        }
        if s.last().0 == peer && s.last().1 == shard {
        } else {
            assert(r == r0.push(s.last()));
            assert(ledger_has(s, s.last().0, s.last().1)) by {
                assert(s[s.len() - 1] == s.last());
            }
            if ledger_distinct(s) {
                assert(ledger_distinct(d)) by {
                    assert forall|i: int, j: int| 0 <= i < j < d.len() implies !(d[i].0 == d[j].0
                        && d[i].1 == d[j].1) by {
                        assert(d[i] == s[i] && d[j] == s[j]);
                    }
                }
                assert forall|i: int, j: int| 0 <= i < j < r.len() implies !(r[i].0 == r[j].0
                    && r[i].1 == r[j].1) by {
                    if j < r.len() - 1 {
                        assert(r[i] == r0[i] && r[j] == r0[j]);
                    } else {
                        assert(r[j] == s.last());
                        assert(r[i] == r0[i]);
                        if r0[i].0 == s.last().0 && r0[i].1 == s.last().1 {
                            assert(ledger_has(d, r0[i].0, r0[i].1));
                            let u = choose|u: int|
                                0 <= u < d.len() && d[u].0 == r0[i].0 && d[u].1 == r0[i].1;
                            assert(s[u] == d[u]);
                            assert(s[s.len() - 1] == s.last());
                        }
                    }
                }
            }
        }
    }
}

spec fn ledger_sweep(s: LedgerSeq, now: Timestamp) -> LedgerSeq
    decreases s.len(),
{
    if s.len() == 0 {
        s
    } else {
        let r = ledger_sweep(s.drop_last(), now);
        if now > s.last().2.wait_until {
            r
        } else {
            r.push(s.last())
        }
    }
}

proof fn lemma_ledger_sweep_get(s: LedgerSeq, now: Timestamp, p2: PeerId, s2: ShardId)
    requires
        ledger_distinct(s),
    ensures
        ledger_get(ledger_sweep(s, now), p2, s2) == match ledger_get(s, p2, s2) {
            Some(e) => if now > e.wait_until {
                None::<PendingRequestStatus>
            } else {
                Some(e)
            },
            None => None::<PendingRequestStatus>,
        },
    decreases s.len(),
{
    if s.len() == 0 {
    } else {
        let d = s.drop_last();
        assert(ledger_distinct(d)) by {
            assert forall|i: int, j: int| 0 <= i < j < d.len() implies !(d[i].0 == d[j].0 && d[i].1
                == d[j].1) by {
                assert(d[i] == s[i] && d[j] == s[j]);
            }
        }
        lemma_ledger_sweep_get(d, now, p2, s2);
        let r = ledger_sweep(d, now);
        if now > s.last().2.wait_until {
            if p2 == s.last().0 && s2 == s.last().1 {
                assert(!ledger_has(d, p2, s2)) by {
                    if ledger_has(d, p2, s2) {
                        let i = choose|i: int| 0 <= i < d.len() && d[i].0 == p2 && d[i].1 == s2;
                        assert(s[i] == d[i]);
                        assert(s[s.len() - 1] == s.last());
                    }
                }
                lemma_ledger_absent(d, p2, s2);
            }
        } else {
            assert(r.push(s.last()).drop_last() =~= r);
            assert(r.push(s.last()).last() == s.last());
        }
    }
}

proof fn lemma_ledger_sweep_distinct(s: LedgerSeq, now: Timestamp)
    ensures
        forall|t: int|
            0 <= t < ledger_sweep(s, now).len() ==> ledger_has(
                s,
                #[trigger] ledger_sweep(s, now)[t].0,
                ledger_sweep(s, now)[t].1,
            ),
        ledger_distinct(s) ==> ledger_distinct(ledger_sweep(s, now)),
    decreases s.len(),
{
    if s.len() == 0 {
    } else {
        lemma_ledger_sweep_distinct(s.drop_last(), now);
        let d = s.drop_last();
        let r0 = ledger_sweep(d, now);
        let r = ledger_sweep(s, now);
        assert forall|t: int|
            0 <= t < r0.len() implies ledger_has(s, #[trigger] r0[t].0, r0[t].1) by {
            assert(ledger_has(d, r0[t].0, r0[t].1));
            let i = choose|i: int| 0 <= i < d.len() && d[i].0 == r0[t].0 && d[i].1 == r0[t].1;
            assert(s[i] == d[i]);
        }
        if now > s.last().2.wait_until {
        } else {
            assert(r == r0.push(s.last()));
            assert(ledger_has(s, s.last().0, s.last().1)) by {
                assert(s[s.len() - 1] == s.last());
            }
            if ledger_distinct(s) {
                assert(ledger_distinct(d)) by {
                    assert forall|i: int, j: int| 0 <= i < j < d.len() implies !(d[i].0 == d[j].0
                        && d[i].1 == d[j].1) by {
                        assert(d[i] == s[i] && d[j] == s[j]);
                    }
                }
                assert forall|i: int, j: int| 0 <= i < j < r.len() implies !(r[i].0 == r[j].0
                    && r[i].1 == r[j].1) by {
                    if j < r.len() - 1 {
                        assert(r[i] == r0[i] && r[j] == r0[j]);
                    } else {
                        assert(r[j] == s.last());
                        assert(r[i] == r0[i]);
                        if r0[i].0 == s.last().0 && r0[i].1 == s.last().1 {
                            assert(ledger_has(d, r0[i].0, r0[i].1));
                            let u = choose|u: int|
                                0 <= u < d.len() && d[u].0 == r0[i].0 && d[u].1 == r0[i].1;
                            assert(s[u] == d[u]);
                            assert(s[s.len() - 1] == s.last());
                        }
                    }
                }
            }
        }
    }
}

/// The ledger of outstanding part requests, keyed by `(peer, shard)`.
///
/// Its well-formedness carries the cap on per-peer load: no pair ever
/// has more than `MAX_STATE_PART_REQUEST` outstanding parts.
pub struct PendingLedger {
    entries: Vec<(PeerId, ShardId, PendingRequestStatus)>,
}

impl PendingLedger {
    /// The entry of `(peer, shard)`, if one is outstanding.
    pub closed spec fn spec_get(self, peer: PeerId, shard: ShardId) -> Option<
        PendingRequestStatus,
    > {
        ledger_get(self.entries@, peer, shard)
    }

    /// Each pair has at most one entry.
    pub closed spec fn spec_distinct(self) -> bool {
        ledger_distinct(self.entries@)
    }

    /// The number of outstanding parts of `(peer, shard)`: zero when no
    /// entry exists.
    pub open spec fn spec_count(self, peer: PeerId, shard: ShardId) -> int {
        match self.spec_get(peer, shard) {
            Some(e) => e.missing_parts as int,
            None => 0,
        }
    }

    /// Every pair has at most one entry, holding between one and
    /// `MAX_STATE_PART_REQUEST` outstanding parts.
    pub open spec fn wf(self) -> bool {
        &&& self.spec_distinct()
        &&& forall|p: PeerId, s: ShardId|
            match #[trigger] self.spec_get(p, s) {
                Some(e) => 1 <= e.missing_parts <= MAX_STATE_PART_REQUEST,
                None => true,
            }
    }

    /// An empty ledger.
    pub fn new() -> (r: Self)
        ensures
            forall|p: PeerId, s: ShardId| r.spec_get(p, s) is None,
            r.wf(),
    {
        PendingLedger { entries: Vec::new() }
    }

    /// The entry of `(peer, shard)`, if one is outstanding.
    pub fn get(&self, peer: PeerId, shard: ShardId) -> (r: Option<PendingRequestStatus>)
        ensures
            r == self.spec_get(peer, shard),
    {
        let n = self.entries.len();
        let mut i: usize = n;
        proof {
            assert(self.entries@.take(n as int) =~= self.entries@);
        }
        while i > 0
            invariant
                i <= n,
                n == self.entries.len(),
                ledger_get(self.entries@, peer, shard) == ledger_get(
                    self.entries@.take(i as int),
                    peer,
                    shard,
                ),
            decreases i,
        {
            i = i - 1;
            proof {
                assert(self.entries@.take((i + 1) as int).last() == self.entries@[i as int]);
                assert(self.entries@.take((i + 1) as int).drop_last() =~= self.entries@.take(
                    i as int,
                ));
            }
            let e = &self.entries[i];
            if e.0 == peer && e.1 == shard {
                return Some(e.2);
            }
        }
        None
    }

    /// Whether `(peer, shard)` has an outstanding entry.
    pub fn contains(&self, peer: PeerId, shard: ShardId) -> (r: bool)
        ensures
            r == (self.spec_get(peer, shard) is Some),
    {
        match self.get(peer, shard) {
            Some(_) => true,
            None => false,
        }
    }

    /// Record one more requested part for `(peer, shard)`: create the
    /// entry with one part and a fresh deadline, or add one part to the
    /// existing entry. The caller keeps the per-peer cap.
    pub fn note_request(
        &mut self,
        peer: PeerId,
        shard: ShardId,
        now: Timestamp,
        timeout: TimeDelta,
    )
        requires
            old(self).wf(),
            old(self).spec_count(peer, shard) < MAX_STATE_PART_REQUEST,
        ensures
            final(self).wf(),
            final(self).spec_count(peer, shard) == old(self).spec_count(peer, shard) + 1,
            final(self).spec_get(peer, shard) == match old(self).spec_get(peer, shard) {
                None => Some(PendingRequestStatus {
                    missing_parts: 1,
                    wait_until: spec_sat_add(now, timeout),
                }),
                Some(e) => Some(PendingRequestStatus {
                    missing_parts: (e.missing_parts + 1) as u64,
                    wait_until: e.wait_until,
                }),
            },
            forall|p: PeerId, s: ShardId|
                !(p == peer && s == shard) ==> final(self).spec_get(p, s) == old(self).spec_get(
                    p,
                    s,
                ),
    {
        let entry = match self.get(peer, shard) {
            Some(e) => PendingRequestStatus {
                missing_parts: e.missing_parts + 1,
                wait_until: e.wait_until,
            },
            None => PendingRequestStatus::new(now, timeout),
        };
        self.set(peer, shard, entry);
    }

    /// Replace or create the entry of `(peer, shard)`.
    fn set(&mut self, peer: PeerId, shard: ShardId, entry: PendingRequestStatus)
        ensures
            final(self).spec_get(peer, shard) == Some(entry),
            forall|p: PeerId, s: ShardId|
                !(p == peer && s == shard) ==> final(self).spec_get(p, s) == old(self).spec_get(
                    p,
                    s,
                ),
            old(self).spec_distinct() ==> final(self).spec_distinct(),
    {
        self.remove(peer, shard);
        let ghost s0 = self.entries@;
        self.entries.push((peer, shard, entry));
        proof {
            assert(self.entries@.drop_last() =~= s0);
            if ledger_distinct(s0) {
                let r = self.entries@;
                assert forall|i: int, j: int| 0 <= i < j < r.len() implies !(r[i].0 == r[j].0
                    && r[i].1 == r[j].1) by {
                    if j == r.len() - 1 {
                        assert(r[i] == s0[i]);
                    } else {
                        assert(r[i] == s0[i] && r[j] == s0[j]);
                    }
                }
            }
        }
    }

    /// Note that one requested part arrived from `(peer, shard)`:
    /// decrement the outstanding count, and drop the entry when it
    /// reaches zero. Without an entry nothing changes.
    pub fn on_part_received(&mut self, peer: PeerId, shard: ShardId)
        requires
            old(self).wf(),
        ensures
            final(self).wf(),
            final(self).spec_count(peer, shard) == if old(self).spec_count(peer, shard) > 0 {
                old(self).spec_count(peer, shard) - 1
            } else {
                0
            },
            old(self).spec_count(peer, shard) == 1 ==> final(self).spec_get(peer, shard) is None,
            forall|p: PeerId, s: ShardId|
                !(p == peer && s == shard) ==> final(self).spec_get(p, s) == old(self).spec_get(
                    p,
                    s,
                ),
    {
        match self.get(peer, shard) {
            Some(e) => {
                if e.missing_parts <= 1 {
                    self.remove(peer, shard);
                } else {
                    self.set(
                        peer,
                        shard,
                        PendingRequestStatus {
                            missing_parts: e.missing_parts - 1,
                            wait_until: e.wait_until,
                        },
                    );
                }
            }
            None => {}
        }
    }

    /// Drop the entry of `(peer, shard)`.
    fn remove(&mut self, peer: PeerId, shard: ShardId)
        ensures
            final(self).spec_get(peer, shard) is None,
            forall|p: PeerId, s: ShardId|
                !(p == peer && s == shard) ==> final(self).spec_get(p, s) == old(self).spec_get(
                    p,
                    s,
                ),
            old(self).spec_distinct() ==> final(self).spec_distinct(),
            forall|t: int|
                0 <= t < final(self).entries@.len() ==> !(#[trigger] final(self).entries@[t].0
                    == peer && final(self).entries@[t].1 == shard),
    {
        let ghost s0 = self.entries@;
        let ghost n = s0.len() as int;
        let mut aux: Vec<(PeerId, ShardId, PendingRequestStatus)> = Vec::new();
        loop
            invariant
                n == s0.len(),
                aux.len() + self.entries.len() == n,
                forall|t: int| 0 <= t < self.entries@.len() ==> self.entries@[t] == s0[t],
                forall|t: int| 0 <= t < aux@.len() ==> aux@[t] == s0[n - 1 - t],
            ensures
                self.entries@.len() == 0,
                aux@.len() == n,
                forall|t: int| 0 <= t < aux@.len() ==> aux@[t] == s0[n - 1 - t],
            decreases self.entries.len(),
        {
            let ghost pre_entries = self.entries@;
            match self.entries.pop() {
                Some(e) => {
                    proof {
                        let m = pre_entries.len() as int;
                        assert(e == pre_entries[m - 1]);
                        assert(e == s0[m - 1]);
                    }
                    aux.push(e);
                }
                None => {
                    break;
                }
            }
        }
        let mut j: usize = 0;
        proof {
            assert(self.entries@ =~= ledger_remove(s0.take(0), peer, shard));
        }
        loop
            invariant
                n == s0.len(),
                n <= usize::MAX,
                j <= n,
                aux.len() == n - j,
                forall|t: int| 0 <= t < aux@.len() ==> aux@[t] == s0[n - 1 - t],
                self.entries@ == ledger_remove(s0.take(j as int), peer, shard),
            ensures
                self.entries@ == ledger_remove(s0.take(n), peer, shard),
            decreases aux.len(),
        {
            let ghost pre_aux = aux@;
            match aux.pop() {
                Some(e) => {
                    proof {
                        let m = pre_aux.len() as int;
                        assert(e == pre_aux[m - 1]);
                        assert(e == s0[n - 1 - (m - 1)]);
                        assert(n - 1 - (m - 1) == j as int);
                        assert(s0.take((j + 1) as int).drop_last() =~= s0.take(j as int));
                        assert(s0.take((j + 1) as int).last() == s0[j as int]);
                    }
                    let ghost pre_out = self.entries@;
                    if !(e.0 == peer && e.1 == shard) {
                        self.entries.push(e);
                        proof {
                            assert(self.entries@ == pre_out.push(e));
                        }
                    }
                    j = j + 1;
                }
                None => {
                    break;
                }
            }
        }
        proof {
            assert(s0.take(n) =~= s0);
            assert forall|p: PeerId, s: ShardId| true implies ledger_get(
                ledger_remove(s0, peer, shard),
                p,
                s,
            ) == (if p == peer && s == shard {
                None::<PendingRequestStatus>
            } else {
                ledger_get(s0, p, s)
            }) by {
                lemma_ledger_remove_get(s0, peer, shard, p, s);
            }
            lemma_ledger_remove_props(s0, peer, shard);
        }
    }

    /// Sweep every entry whose deadline has passed.
    pub fn sweep_expired(&mut self, now: Timestamp)
        requires
            old(self).wf(),
        ensures
            final(self).wf(),
            forall|p: PeerId, s: ShardId|
                #![trigger final(self).spec_get(p, s)]
                final(self).spec_get(p, s) == match old(self).spec_get(p, s) {
                    Some(e) => if now > e.wait_until {
                        None::<PendingRequestStatus>
                    } else {
                        Some(e)
                    },
                    None => None::<PendingRequestStatus>,
                },
    {
        let ghost s0 = self.entries@;
        let ghost n = s0.len() as int;
        let mut aux: Vec<(PeerId, ShardId, PendingRequestStatus)> = Vec::new();
        loop
            invariant
                n == s0.len(),
                aux.len() + self.entries.len() == n,
                forall|t: int| 0 <= t < self.entries@.len() ==> self.entries@[t] == s0[t],
                forall|t: int| 0 <= t < aux@.len() ==> aux@[t] == s0[n - 1 - t],
            ensures
                self.entries@.len() == 0,
                aux@.len() == n,
                forall|t: int| 0 <= t < aux@.len() ==> aux@[t] == s0[n - 1 - t],
            decreases self.entries.len(),
        {
            let ghost pre_entries = self.entries@;
            match self.entries.pop() {
                Some(e) => {
                    proof {
                        let m = pre_entries.len() as int;
                        assert(e == pre_entries[m - 1]);
                        assert(e == s0[m - 1]);
                    }
                    aux.push(e);
                }
                None => {
                    break;
                }
            }
        }
        let mut j: usize = 0;
        proof {
            assert(self.entries@ =~= ledger_sweep(s0.take(0), now));
        }
        loop
            invariant
                n == s0.len(),
                n <= usize::MAX,
                j <= n,
                aux.len() == n - j,
                forall|t: int| 0 <= t < aux@.len() ==> aux@[t] == s0[n - 1 - t],
                self.entries@ == ledger_sweep(s0.take(j as int), now),
            ensures
                self.entries@ == ledger_sweep(s0.take(n), now),
            decreases aux.len(),
        {
            let ghost pre_aux = aux@;
            match aux.pop() {
                Some(e) => {
                    proof {
                        let m = pre_aux.len() as int;
                        assert(e == pre_aux[m - 1]);
                        assert(e == s0[n - 1 - (m - 1)]);
                        assert(n - 1 - (m - 1) == j as int);
                        assert(s0.take((j + 1) as int).drop_last() =~= s0.take(j as int));
                        assert(s0.take((j + 1) as int).last() == s0[j as int]);
                    }
                    let ghost pre_out = self.entries@;
                    if !e.2.expired(now) {
                        self.entries.push(e);
                        proof {
                            assert(self.entries@ == pre_out.push(e));
                        }
                    }
                    j = j + 1;
                }
                None => {
                    break;
                }
            }
        }
        proof {
            assert(s0.take(n) =~= s0);
            assert forall|p: PeerId, s: ShardId| true implies ledger_get(
                ledger_sweep(s0, now),
                p,
                s,
            ) == (match ledger_get(s0, p, s) {
                Some(e) => if now > e.wait_until {
                    None::<PendingRequestStatus>
                } else {
                    Some(e)
                },
                None => None::<PendingRequestStatus>,
            }) by {
                lemma_ledger_sweep_get(s0, now, p, s);
            }
            lemma_ledger_sweep_distinct(s0, now);
            assert(self.spec_distinct());
            assert forall|p: PeerId, s: ShardId|
                #![trigger self.spec_get(p, s)]
                self.spec_get(p, s) == (match old(self).spec_get(p, s) {
                Some(e) => if now > e.wait_until {
                    None::<PendingRequestStatus>
                } else {
                    Some(e)
                },
                None => None::<PendingRequestStatus>,
            }) by {
                assert(old(self).spec_get(p, s) == ledger_get(s0, p, s));
                assert(ledger_get(self.entries@, p, s) == ledger_get(ledger_sweep(s0, now), p, s));
            }
            assert forall|p: PeerId, s: ShardId|
                match #[trigger] self.spec_get(p, s) {
                    Some(e) => 1 <= e.missing_parts <= MAX_STATE_PART_REQUEST,
                    None => true,
                } by {
                match old(self).spec_get(p, s) {
                    Some(_) => {}
                    None => {}
                }
            }
        }
    }
}

} // verus!
