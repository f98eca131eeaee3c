//! The library's view of the epoch manager: per-epoch shard layout and
//! epoch height, and whether the shard layout changes after the sync
//! epoch.

use vstd::prelude::*;
use crate::types::{EpochHeight, EpochId};

verus! {

/// What the sync logic reads of one epoch: the version of its shard
/// layout and its height.
#[derive(Clone, Copy, PartialEq, Eq, Structural, Debug)]
pub struct EpochInfo {
    pub layout_version: u32,
    pub epoch_height: EpochHeight,
}

spec fn epochs_get(s: Seq<(EpochId, EpochInfo)>, e: EpochId) -> Option<EpochInfo>
    decreases s.len(),
{
    if s.len() == 0 {
        None
    } else if s.last().0 == e {
        Some(s.last().1)
    } else {
        epochs_get(s.drop_last(), e)
    }
}

/// The library's view of the epoch manager.
pub struct EpochManagerView {
    epochs: Vec<(EpochId, EpochInfo)>,
    layout_change_pending: bool,
}

impl EpochManagerView {
    /// What is known of epoch `e`.
    pub closed spec fn spec_epoch(self, e: EpochId) -> Option<EpochInfo> {
        epochs_get(self.epochs@, e)
    }

    /// Whether the shard layout will change for the epoch after the
    /// sync epoch.
    pub closed spec fn spec_layout_change_pending(self) -> bool {
        self.layout_change_pending
    }

    /// A view that knows no epoch yet.
    pub fn new(layout_change_pending: bool) -> (r: Self)
        ensures
            forall|e: EpochId| r.spec_epoch(e) is None,
            r.spec_layout_change_pending() == layout_change_pending,
    {
        EpochManagerView { epochs: Vec::new(), layout_change_pending }
    }

    /// Record what is known of epoch `e`.
    pub fn insert_epoch(&mut self, e: EpochId, info: EpochInfo)
        ensures
            final(self).spec_epoch(e) == Some(info),
            forall|e2: EpochId| e2 != e ==> final(self).spec_epoch(e2) == old(self).spec_epoch(e2),
            final(self).spec_layout_change_pending() == old(self).spec_layout_change_pending(),
    {
        let ghost s0 = self.epochs@;
        self.epochs.push((e, info));
        proof {
            assert(self.epochs@.drop_last() =~= s0);
        }
    }

    /// What is known of epoch `e`.
    pub fn get_epoch_info(&self, e: EpochId) -> (r: Option<EpochInfo>)
        ensures
            r == self.spec_epoch(e),
    {
        let n = self.epochs.len();
        let mut i: usize = n;
        proof {
            assert(self.epochs@.take(n as int) =~= self.epochs@);
        }
        while i > 0
            invariant
                i <= n,
                n == self.epochs.len(),
                epochs_get(self.epochs@, e) == epochs_get(self.epochs@.take(i as int), e),
            decreases i,
        {
            i = i - 1;
            proof {
                assert(self.epochs@.take((i + 1) as int).last() == self.epochs@[i as int]);
                assert(self.epochs@.take((i + 1) as int).drop_last() =~= self.epochs@.take(
                    i as int,
                ));
            }
            let entry = &self.epochs[i];
            if entry.0 == e {
                return Some(entry.1);
            }
        }
        None
    }

    /// The version of the shard layout of epoch `e`.
    pub fn get_shard_layout(&self, e: EpochId) -> (r: Option<u32>)
        ensures
            r == match self.spec_epoch(e) {
                Some(info) => Some(info.layout_version),
                None => None::<u32>,
            },
    {
        match self.get_epoch_info(e) {
            Some(info) => Some(info.layout_version),
            None => None,
        }
    }

    /// Whether the shard layout will change for the epoch after the
    /// sync epoch, making a resharding step necessary once the state is
    /// downloaded.
    pub fn will_shard_layout_change(&self) -> (r: bool)
        ensures
            r == self.spec_layout_change_pending(),
    {
        self.layout_change_pending
    }
}

} // verus!
