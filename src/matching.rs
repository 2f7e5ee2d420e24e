use vstd::prelude::*;

use bitcoin::util::bip158::BlockFilter;
use bitcoin::BlockHash;

use crate::error::CompactFiltersError;

verus! {

/// What BIP158 `match_any` answers for a filter, the hash of its block and a
/// set of scripts: `Some(found)`, or `None` where the filter cannot be read.
pub uninterp spec fn filter_match_any(
    content: Seq<u8>,
    block_hash: Seq<u8>,
    scripts: Seq<Seq<u8>>,
) -> Option<bool>;

/// The scripts of a list as byte sequences.
pub open spec fn scripts_view(scripts: Seq<Vec<u8>>) -> Seq<Seq<u8>> {
    scripts.map_values(|s: Vec<u8>| s@)
}

/// Largest element count the filter reader handles without overflow: its
/// range reduction adds three 64-bit products, which stay in range only
/// while the count times the BIP158 parameter `M` is below `2^33`.
pub const MAX_FILTER_ELEMENTS: u64 = 10943;

/// Largest filter the reader is handed; a bit stream of this size cannot
/// drive its running sums out of range.
pub const MAX_FILTER_LEN: u64 = 0x100_0000_0000;

/// Whether a filter's leading element count, a Bitcoin variable-length
/// integer, is at most [`MAX_FILTER_ELEMENTS`]: a single byte below `0xfd`, a
/// `0xfd` prefix with a little-endian 16-bit count in range, or a `0xfd`
/// prefix cut short, which the reader takes as a count of zero.
pub open spec fn filter_count_in_range(content: Seq<u8>) -> bool {
    &&& content.len() < MAX_FILTER_LEN
    &&& (content.len() == 0 || content[0] < 0xfd || (content[0] == 0xfd && (content.len() < 3
        || content[1] + content[2] * 256 <= MAX_FILTER_ELEMENTS)))
}

/// Whether a filter's element count is one the reader handles.
pub fn filter_count_ok(content: &Vec<u8>) -> (r: bool)
    ensures
        r == filter_count_in_range(content@),
{
    if content.len() as u64 >= MAX_FILTER_LEN {
        return false;
    }
    if content.len() == 0 || content[0] < 0xfd {
        return true;
    }
    if content[0] != 0xfd {
        return false;
    }
    content.len() < 3 || content[1] as u64 + content[2] as u64 * 256 <= MAX_FILTER_ELEMENTS
}

/// Relies on bitcoin's `BlockFilter::match_any`: whether the Golomb-coded set,
/// keyed by the block hash, holds any of the scripts. It depends on its
/// arguments alone and fails only with an I/O error on a truncated bit
/// stream. The element count is bounded so that its arithmetic stays in range.
#[verifier::external_body]
pub(crate) fn bip158_match_any(content: &Vec<u8>, block_hash: &[u8; 32], scripts: &Vec<Vec<u8>>) -> (r: Result<
    bool,
    bitcoin::util::bip158::Error,
>)
    requires
        filter_count_in_range(content@),
    ensures
        r is Ok <==> filter_match_any(content@, block_hash@, scripts_view(scripts@)) is Some,
        r matches Ok(found) ==> filter_match_any(content@, block_hash@, scripts_view(scripts@))
            == Some(found),
{
    let filter = BlockFilter::new(content.as_slice());
    let hash = <BlockHash as bitcoin::hashes::Hash>::from_inner(*block_hash);
    filter.match_any(&hash, &mut scripts.iter().map(|s| s.as_slice()))
}

/// Whether a block whose filter matched must be downloaded, and the new
/// lowest height from which wallet transactions are rescanned.
///
/// A block that is already stored under the same hash is not fetched again.
/// A block that is fetched lowers `last_synced_block` to its height, never
/// raises it.
pub fn download_decision(
    matched: bool,
    saved_correct_block: bool,
    block_height: usize,
    last_synced_block: &mut usize,
) -> (download: bool)
    ensures
        download == (matched && !saved_correct_block),
        *final(last_synced_block) == if download && block_height < *old(last_synced_block) {
            block_height
        } else {
            *old(last_synced_block)
        },
{
    if !matched || saved_correct_block {
        return false;
    }
    if block_height < *last_synced_block {
        *last_synced_block = block_height;
    }
    true
}

/// Decides for one downloaded filter whether its block must be fetched.
///
/// An empty script set matches nothing, so no block is fetched for it. A
/// filter whose element count is out of range is rejected as invalid, and
/// one that cannot be read gives the BIP158 error. Otherwise the answer is
/// that of [`download_decision`] on the filter's match.
pub fn on_match(
    filter: &Vec<u8>,
    block_hash: &[u8; 32],
    scripts: &Vec<Vec<u8>>,
    saved_correct_block: bool,
    block_height: usize,
    last_synced_block: &mut usize,
) -> (r: Result<bool, CompactFiltersError>)
    ensures
        scripts@.len() == 0 ==> (r matches Ok(false)),
        scripts@.len() > 0 && !filter_count_in_range(filter@) ==> (r matches Err(
            CompactFiltersError::InvalidFilter,
        )),
        scripts@.len() > 0 && filter_count_in_range(filter@) ==> match filter_match_any(
            filter@,
            block_hash@,
            scripts_view(scripts@),
        ) {
            Some(found) => r == Ok::<bool, CompactFiltersError>(found && !saved_correct_block),
            None => r matches Err(CompactFiltersError::BIP158(_)),
        },
        *final(last_synced_block) == if (r matches Ok(true)) && block_height < *old(
            last_synced_block,
        ) {
            block_height
        } else {
            *old(last_synced_block)
        },
{
    if scripts.len() == 0 {
        return Ok(false);
    }
    if !filter_count_ok(filter) {
        return Err(CompactFiltersError::InvalidFilter);
    }
    match bip158_match_any(filter, block_hash, scripts) {
        Ok(found) => Ok(download_decision(found, saved_correct_block, block_height, last_synced_block)),
        Err(e) => Err(CompactFiltersError::BIP158(e)),
    }
}

/// The value of `last_synced_block` after [`download_decision`] has run, in
/// order, on the first `n` outcomes `(matched, saved_correct_block, height)`.
pub open spec fn last_synced_after(outcomes: Seq<(bool, bool, usize)>, n: int, start: usize) -> usize
    decreases n,
{
    if n <= 0 {
        start
    } else {
        let prev = last_synced_after(outcomes, n - 1, start);
        let (matched, saved, height) = outcomes[n - 1];
        if matched && !saved && height < prev {
            height
        } else {
            prev
        }
    }
}

/// A sync in which every matching block is already stored fetches no block
/// and leaves `last_synced_block` where it was, so no stored transaction
/// below it is dropped for a rescan.
pub proof fn lemma_rerun_fetches_nothing(outcomes: Seq<(bool, bool, usize)>, start: usize)
    requires
        forall|i: int| 0 <= i < outcomes.len() && (#[trigger] outcomes[i]).0 ==> outcomes[i].1,
    ensures
        forall|i: int| 0 <= i < outcomes.len() ==> !((#[trigger] outcomes[i]).0 && !outcomes[i].1),
        last_synced_after(outcomes, outcomes.len() as int, start) == start,
{
    lemma_last_synced_unchanged(outcomes, outcomes.len() as int, start);
}

proof fn lemma_last_synced_unchanged(outcomes: Seq<(bool, bool, usize)>, n: int, start: usize)
    requires
        0 <= n <= outcomes.len(),
        forall|i: int| 0 <= i < outcomes.len() && (#[trigger] outcomes[i]).0 ==> outcomes[i].1,
    ensures
        last_synced_after(outcomes, n, start) == start,
    decreases n,
{
    if n > 0 {
        lemma_last_synced_unchanged(outcomes, n - 1, start);
    }
}

} // verus!
