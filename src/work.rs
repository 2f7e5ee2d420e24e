use vstd::prelude::*;

use bitcoin::util::uint::Uint256;

verus! {

/// The number that four little-endian 64-bit limbs stand for.
pub open spec fn work_value(limbs: Seq<u64>) -> int {
    limbs[0] + limbs[1] * 0x1_0000_0000_0000_0000int + limbs[2] * 0x1_0000_0000_0000_0000_0000_0000_0000_0000int
        + limbs[3] * 0x1_0000_0000_0000_0000_0000_0000_0000_0000_0000_0000_0000_0000int
}

/// Relies on the ordering of bitcoin's `Uint256`, which compares the limbs
/// from the most significant down, that is, by value.
#[verifier::external_body]
fn uint256_gt(a: [u64; 4], b: [u64; 4]) -> (r: bool)
    ensures
        r == (work_value(a@) > work_value(b@)),
{
    Uint256(a) > Uint256(b)
}

/// Whether a header snapshot replaces the live chain: only one that exists
/// and has strictly more cumulative work does. Header sync uses this when
/// it ends, and startup when it finds a snapshot an interrupted sync left.
pub fn should_apply_snapshot(snapshot_work: Option<[u64; 4]>, live_work: [u64; 4]) -> (apply: bool)
    ensures
        apply == (snapshot_work matches Some(w) && work_value(w@) > work_value(live_work@)),
{
    match snapshot_work {
        Some(w) => uint256_gt(w, live_work),
        None => false,
    }
}

/// The cumulative work of the chain that is live once the snapshot
/// decision is taken.
pub open spec fn work_after(snapshot_work: Option<[u64; 4]>, live_work: [u64; 4]) -> int {
    match snapshot_work {
        Some(w) => if work_value(w@) > work_value(live_work@) {
            work_value(w@)
        } else {
            work_value(live_work@)
        },
        None => work_value(live_work@),
    }
}

/// Whatever a header sync or a recovery leaves behind, the visible chain's
/// work never drops: a snapshot is applied only where it has more work, and
/// is dropped otherwise.
pub proof fn lemma_visible_work_never_regresses(snapshot_work: Option<[u64; 4]>, live_work: [u64; 4])
    ensures
        work_after(snapshot_work, live_work) >= work_value(live_work@),
        work_after(snapshot_work, live_work) == if (snapshot_work matches Some(w) && work_value(w@)
            > work_value(live_work@)) {
            work_value(snapshot_work.unwrap()@)
        } else {
            work_value(live_work@)
        },
{
}

} // verus!
