use vstd::prelude::*;

use crate::bundles::{
    bundle_count, count_pruned, initial_states, lemma_skip_beyond_tip_leaves_nothing, BundleState,
    BundleTracker,
};

verus! {

/// Cost of downloading one header.
pub const SYNC_HEADERS_COST: u64 = 1;

/// Cost of syncing the filters of one bundle.
pub const SYNC_FILTERS_COST: u64 = 11600;

/// Cost of processing the downloaded blocks and the mempool.
pub const PROCESS_BLOCKS_COST: u64 = 20000;

/// The weights of the phases of one sync; progress is a share of
/// `total_cost`.
#[derive(Debug, Clone, Copy, PartialEq, Eq, Structural)]
pub struct SyncCosts {
    /// Number of bundles that remain to sync
    pub expected_bundles: u64,
    /// Cost of the headers that remain to download
    pub headers_cost: u64,
    /// Cost of the bundles that remain to sync
    pub filters_cost: u64,
    /// Cost of the whole sync
    pub total_cost: u64,
}

/// Bundles up to the peer's height that still need their filters: those a
/// [`BundleTracker`] over that height would not start as pruned.
pub open spec fn pending_bundles(peer_height: u32, skip_blocks: usize, stored_pruned: Seq<bool>) -> int {
    bundle_count(peer_height) - count_pruned(
        initial_states(peer_height, skip_blocks, stored_pruned),
        bundle_count(peer_height),
    )
}

/// `a - b`, or zero where `b` is larger.
pub open spec fn sub_or_zero(a: int, b: int) -> int {
    if a >= b {
        a - b
    } else {
        0
    }
}

/// Whether the phase costs add up: the filters cost is that of each
/// expected bundle, and the total adds the final processing.
pub open spec fn costs_consistent(c: SyncCosts) -> bool {
    &&& c.filters_cost == c.expected_bundles * SYNC_FILTERS_COST
    &&& c.total_cost == c.headers_cost + c.filters_cost + PROCESS_BLOCKS_COST
}

/// Estimates the cost of each phase of a sync: the headers from
/// `initial_height` up to the peer's advertised height, the bundles up to
/// that height that are neither pruned in storage nor wholly below
/// `skip_blocks`, and the final processing.
pub fn sync_costs(
    peer_height: u32,
    skip_blocks: usize,
    initial_height: usize,
    stored_pruned: &Vec<bool>,
) -> (c: SyncCosts)
    ensures
        c.expected_bundles == pending_bundles(peer_height, skip_blocks, stored_pruned@),
        c.headers_cost == sub_or_zero(peer_height as int, initial_height as int) * SYNC_HEADERS_COST,
        costs_consistent(c),
{
    let tracker = BundleTracker::new(peer_height, skip_blocks, stored_pruned);
    let expected: u64 = (tracker.len() - tracker.pruned_bundles()) as u64;
    assert(tracker@.len() == bundle_count(peer_height));
    let headers: u64 = if peer_height as u64 >= initial_height as u64 {
        (peer_height as u64 - initial_height as u64) * SYNC_HEADERS_COST
    } else {
        0
    };
    let filters: u64 = expected * SYNC_FILTERS_COST;
    SyncCosts {
        expected_bundles: expected,
        headers_cost: headers,
        filters_cost: filters,
        total_cost: headers + filters + PROCESS_BLOCKS_COST,
    }
}

/// Progress, in cost units, once headers reach `new_height`.
pub open spec fn headers_progress_spec(new_height: usize, initial_height: usize) -> int {
    sub_or_zero(new_height as int, initial_height as int) * SYNC_HEADERS_COST
}

/// Progress, in cost units, once headers reach `new_height`.
pub fn headers_progress(new_height: usize, initial_height: usize) -> (p: u64)
    ensures
        p == headers_progress_spec(new_height, initial_height),
{
    if new_height as u64 >= initial_height as u64 {
        (new_height as u64 - initial_height as u64) * SYNC_HEADERS_COST
    } else {
        0
    }
}

/// Progress, in cost units, once `synced_bundles` bundles are done.
pub open spec fn filters_progress_spec(costs: SyncCosts, synced_bundles: usize) -> int {
    costs.headers_cost + synced_bundles * SYNC_FILTERS_COST
}

/// Progress, in cost units, once `synced_bundles` bundles are done: the
/// headers' whole cost and that of each bundle done. While no more bundles
/// are done than expected it stays below the total.
pub fn filters_progress(costs: &SyncCosts, synced_bundles: usize) -> (p: u128)
    ensures
        p == filters_progress_spec(*costs, synced_bundles),
        costs_consistent(*costs) && synced_bundles <= costs.expected_bundles ==> p < costs.total_cost,
{
    proof {
        if costs_consistent(*costs) && synced_bundles <= costs.expected_bundles {
            assert(synced_bundles * SYNC_FILTERS_COST <= costs.expected_bundles * SYNC_FILTERS_COST) by (nonlinear_arith)
                requires
                    synced_bundles <= costs.expected_bundles,
            ;
        }
    }
    costs.headers_cost as u128 + synced_bundles as u128 * SYNC_FILTERS_COST as u128
}

/// For costs as [`sync_costs`] gives them, progress is weakly monotonic: through the header phase, from the header
/// phase to the filter phase, through the filter phase, and into the final
/// processing, which stands at the headers' and filters' whole cost.
pub proof fn lemma_progress_monotonic(
    peer_height: u32,
    initial_height: usize,
    costs: SyncCosts,
    h1: usize,
    h2: usize,
    b1: usize,
    b2: usize,
)
    requires
        h1 <= h2 <= peer_height,
        b1 <= b2,
        costs.headers_cost == sub_or_zero(peer_height as int, initial_height as int) * SYNC_HEADERS_COST,
        costs_consistent(costs),
    ensures
        ({
            let c = costs;
            &&& headers_progress_spec(h1, initial_height) <= headers_progress_spec(h2, initial_height)
            &&& headers_progress_spec(h2, initial_height) <= filters_progress_spec(c, b1)
            &&& filters_progress_spec(c, b1) <= filters_progress_spec(c, b2)
            &&& (b2 <= c.expected_bundles ==> filters_progress_spec(c, b2) <= c.headers_cost
                + c.filters_cost)
            &&& c.headers_cost + c.filters_cost < c.total_cost
        }),
{
    let c = costs;
    assert(b1 * SYNC_FILTERS_COST <= b2 * SYNC_FILTERS_COST) by (nonlinear_arith)
        requires
            b1 <= b2,
    ;
    if b2 <= c.expected_bundles {
        assert(b2 * SYNC_FILTERS_COST <= c.expected_bundles * SYNC_FILTERS_COST) by (nonlinear_arith)
            requires
                b2 <= c.expected_bundles,
        ;
    }
}

proof fn lemma_count_all_pruned(states: Seq<BundleState>, n: int)
    requires
        0 <= n <= states.len(),
        forall|i: int| 0 <= i < states.len() ==> #[trigger] states[i] == BundleState::Pruned,
    ensures
        count_pruned(states, n) == n,
    decreases n,
{
    if n > 0 {
        lemma_count_all_pruned(states, n - 1);
    }
}

/// Where scanning starts beyond the peer's height, no bundle is left to
/// sync and the filter phase costs nothing.
pub proof fn lemma_skip_beyond_tip_costs_nothing(peer_height: u32, skip_blocks: usize, stored_pruned: Seq<bool>)
    requires
        skip_blocks > peer_height,
    ensures
        pending_bundles(peer_height, skip_blocks, stored_pruned) == 0,
{
    let states = initial_states(peer_height, skip_blocks, stored_pruned);
    lemma_skip_beyond_tip_leaves_nothing(peer_height, skip_blocks, stored_pruned);
    lemma_count_all_pruned(states, bundle_count(peer_height));
}

} // verus!
