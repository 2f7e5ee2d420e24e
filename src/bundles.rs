use vstd::prelude::*;

use crate::error::CompactFiltersError;

verus! {

/// Number of heights covered by one bundle of filters.
pub const BUNDLE_SIZE: u64 = 1000;

/// Progress of one bundle of filters.
#[derive(Debug, Clone, Copy, PartialEq, Eq, Structural)]
pub enum BundleState {
    /// No worker holds it and its filters are still to be checked
    Init,
    /// A worker has claimed it
    Waiting,
    /// Like `Init`, for the partial bundle that holds the chain's tip
    Tip,
    /// All its filters are checked and every matching block is stored
    Pruned,
}

/// Whether a worker may claim a bundle in this state.
pub open spec fn claimable(s: BundleState) -> bool {
    s == BundleState::Init || s == BundleState::Tip
}

/// Number of bundles that cover heights `0..=tip_height`.
pub open spec fn bundle_count(tip_height: u32) -> int {
    tip_height as int / BUNDLE_SIZE as int + 1
}

/// Highest height of bundle `i` that the chain holds.
pub open spec fn last_height_of(i: int, tip_height: u32) -> int {
    let end = i * BUNDLE_SIZE + BUNDLE_SIZE - 1;
    if end < tip_height {
        end
    } else {
        tip_height as int
    }
}

/// The state a bundle starts in, from the flags of the bundles already
/// pruned in storage and the height below which no filter is scanned.
pub open spec fn initial_state(i: int, tip_height: u32, skip_blocks: usize, stored_pruned: Seq<bool>) -> BundleState {
    if (i < stored_pruned.len() && stored_pruned[i]) || last_height_of(i, tip_height) < skip_blocks {
        BundleState::Pruned
    } else if (i + 1) * BUNDLE_SIZE > tip_height + 1 {
        BundleState::Tip
    } else {
        BundleState::Init
    }
}

/// The states of all bundles when a sync starts.
pub open spec fn initial_states(tip_height: u32, skip_blocks: usize, stored_pruned: Seq<bool>) -> Seq<BundleState> {
    Seq::new(bundle_count(tip_height) as nat, |i: int| initial_state(i, tip_height, skip_blocks, stored_pruned))
}

/// Number of pruned bundles among the first `n`.
pub open spec fn count_pruned(states: Seq<BundleState>, n: int) -> int
    decreases n,
{
    if n <= 0 {
        0
    } else {
        count_pruned(states, n - 1) + if states[n - 1] == BundleState::Pruned {
            1int
        } else {
            0
        }
    }
}

/// The pruned flag of each bundle, as it is persisted.
pub open spec fn pruned_flags(states: Seq<BundleState>) -> Seq<bool> {
    states.map_values(|s: BundleState| s == BundleState::Pruned)
}

/// Whether every bundle pruned before a step is still pruned after it.
pub open spec fn keeps_pruned(before: Seq<BundleState>, after: Seq<BundleState>) -> bool {
    &&& after.len() == before.len()
    &&& forall|i: int| 0 <= i < before.len() && before[i] == BundleState::Pruned ==> #[trigger] after[i] == BundleState::Pruned
}

/// The bundles of a filter sync and the state of each. Workers claim
/// bundles one at a time; a claimed bundle is either completed, which
/// prunes it, or released back to the pool.
#[derive(Debug)]
pub struct BundleTracker {
    states: Vec<BundleState>,
}

impl View for BundleTracker {
    type V = Seq<BundleState>;

    closed spec fn view(&self) -> Seq<BundleState> {
        self.states@
    }
}

impl BundleTracker {
    /// Lays out the bundles up to `tip_height`. A bundle is pruned where
    /// storage says so or where all its heights lie below `skip_blocks`;
    /// the partial bundle at the tip starts as `Tip`, the others as `Init`.
    pub fn new(tip_height: u32, skip_blocks: usize, stored_pruned: &Vec<bool>) -> (t: Self)
        ensures
            t@ == initial_states(tip_height, skip_blocks, stored_pruned@),
    {
        let count: u64 = tip_height as u64 / BUNDLE_SIZE + 1;
        let mut states: Vec<BundleState> = Vec::new();
        let mut i: u64 = 0;
        while i < count
            invariant
                count == bundle_count(tip_height),
                i <= count,
                states@.len() == i,
                forall|k: int| 0 <= k < i ==> #[trigger] states@[k] == initial_state(k, tip_height, skip_blocks, stored_pruned@),
            decreases count - i,
        {
            let end: u64 = i * BUNDLE_SIZE + BUNDLE_SIZE - 1;
            let last: u64 = if end < tip_height as u64 {
                end
            } else {
                tip_height as u64
            };
            let stored = (i as usize) < stored_pruned.len() && stored_pruned[i as usize];
            let state = if stored || last < skip_blocks as u64 {
                BundleState::Pruned
            } else if (i + 1) * BUNDLE_SIZE > tip_height as u64 + 1 {
                BundleState::Tip
            } else {
                BundleState::Init
            };
            states.push(state);
            i = i + 1;
        }
        let t = BundleTracker { states };
        assert(t@ =~= initial_states(tip_height, skip_blocks, stored_pruned@));
        t
    }

    /// Number of bundles.
    pub fn len(&self) -> (n: usize)
        ensures
            n == self@.len(),
    {
        self.states.len()
    }

    /// State of bundle `i`.
    pub fn state(&self, i: usize) -> (s: BundleState)
        requires
            i < self@.len(),
        ensures
            s == self@[i as int],
    {
        self.states[i]
    }

    /// Number of bundles already pruned.
    pub fn pruned_bundles(&self) -> (n: usize)
        ensures
            n == count_pruned(self@, self@.len() as int),
            n <= self@.len(),
    {
        let mut n: usize = 0;
        let mut i: usize = 0;
        while i < self.states.len()
            invariant
                i <= self@.len(),
                n == count_pruned(self@, i as int),
                n <= i,
            decreases self@.len() - i,
        {
            if self.states[i] == BundleState::Pruned {
                n = n + 1;
            }
            i = i + 1;
        }
        n
    }

    /// The pruned flag of each bundle, for storage.
    pub fn pruned_flags(&self) -> (flags: Vec<bool>)
        ensures
            flags@ == pruned_flags(self@),
    {
        let mut flags: Vec<bool> = Vec::new();
        let mut i: usize = 0;
        while i < self.states.len()
            invariant
                i <= self@.len(),
                flags@ == pruned_flags(self@.subrange(0, i as int)),
            decreases self@.len() - i,
        {
            flags.push(self.states[i] == BundleState::Pruned);
            i = i + 1;
            assert(pruned_flags(self@.subrange(0, i as int)) =~= pruned_flags(
                self@.subrange(0, i - 1),
            ).push(self@[i - 1] == BundleState::Pruned));
        }
        assert(self@.subrange(0, self@.len() as int) =~= self@);
        flags
    }

    /// Claims the first bundle that is `Init` or `Tip` for a worker, moving it
    /// to `Waiting`; `None` where no bundle is left to claim.
    pub fn claim_next(&mut self) -> (r: Option<usize>)
        ensures
            r is None ==> final(self)@ == old(self)@ && forall|i: int|
                0 <= i < old(self)@.len() ==> !claimable(#[trigger] old(self)@[i]),
            r matches Some(i) ==> {
                &&& i < old(self)@.len()
                &&& claimable(old(self)@[i as int])
                &&& forall|j: int| 0 <= j < i ==> !claimable(#[trigger] old(self)@[j])
                &&& final(self)@ == old(self)@.update(i as int, BundleState::Waiting)
            },
            keeps_pruned(old(self)@, final(self)@),
    {
        let mut i: usize = 0;
        while i < self.states.len()
            invariant
                i <= self@.len(),
                self@ == old(self)@,
                forall|j: int| 0 <= j < i ==> !claimable(#[trigger] self@[j]),
            decreases self@.len() - i,
        {
            let s = self.states[i];
            if s == BundleState::Init || s == BundleState::Tip {
                self.states.set(i, BundleState::Waiting);
                return Some(i);
            }
            i = i + 1;
        }
        None
    }

    /// Hands a claimed bundle back to the pool after its worker failed.
    pub fn release(&mut self, i: usize)
        requires
            i < old(self)@.len(),
            old(self)@[i as int] == BundleState::Waiting,
        ensures
            final(self)@ == old(self)@.update(i as int, BundleState::Init),
            keeps_pruned(old(self)@, final(self)@),
    {
        self.states.set(i, BundleState::Init);
    }

    /// Completes a claimed bundle. It is pruned only where no matching block
    /// is left unstored; otherwise it goes back to the pool and the missing
    /// block is reported.
    pub fn complete(&mut self, i: usize, missing_blocks: usize) -> (r: Result<(), CompactFiltersError>)
        requires
            i < old(self)@.len(),
            old(self)@[i as int] == BundleState::Waiting,
        ensures
            missing_blocks == 0 ==> r is Ok && final(self)@ == old(self)@.update(i as int, BundleState::Pruned),
            missing_blocks > 0 ==> (r matches Err(CompactFiltersError::MissingBlock)) && final(self)@
                == old(self)@.update(i as int, BundleState::Init),
            keeps_pruned(old(self)@, final(self)@),
    {
        if missing_blocks == 0 {
            self.states.set(i, BundleState::Pruned);
            Ok(())
        } else {
            self.states.set(i, BundleState::Init);
            Err(CompactFiltersError::MissingBlock)
        }
    }
}

/// Where scanning starts beyond the chain's tip, every bundle starts pruned
/// and none is left to claim.
pub proof fn lemma_skip_beyond_tip_leaves_nothing(tip_height: u32, skip_blocks: usize, stored_pruned: Seq<bool>)
    requires
        skip_blocks > tip_height,
    ensures
        forall|i: int|
            0 <= i < bundle_count(tip_height) ==> #[trigger] initial_states(tip_height, skip_blocks, stored_pruned)[i]
                == BundleState::Pruned,
{
}

/// After a restart from the persisted pruned flags, every bundle that was
/// pruned stays pruned and every other one that holds a height to scan can
/// be claimed again.
pub proof fn lemma_restart_reclaims(states: Seq<BundleState>, tip_height: u32, skip_blocks: usize)
    requires
        states.len() == bundle_count(tip_height),
    ensures
        forall|i: int|
            0 <= i < states.len() ==> {
                let s = #[trigger] initial_states(tip_height, skip_blocks, pruned_flags(states))[i];
                &&& states[i] == BundleState::Pruned ==> s == BundleState::Pruned
                &&& states[i] != BundleState::Pruned && last_height_of(i, tip_height) >= skip_blocks
                    ==> claimable(s)
            },
{
}

} // verus!
