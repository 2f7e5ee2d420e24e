use vstd::prelude::*;

use bitcoin::Block;

use crate::error::CompactFiltersError;
use crate::filter_chain::{double_sha256, same_hash, sha256d};
use crate::matching::{
    bip158_match_any, filter_count_in_range, filter_count_ok, filter_match_any, scripts_view,
};
use crate::progress::sub_or_zero;

verus! {

/// Whether bytes decode as exactly one block whose header's merkle root is
/// that of its transactions: `None` where they are not one block.
pub uninterp spec fn block_merkle_root_ok(raw: Seq<u8>) -> Option<bool>;

/// Relies on bitcoin's consensus `deserialize::<Block>`, which takes the
/// bytes whole or fails, and on `Block::check_merkle_root`. A block starts
/// with its 80-byte header, so one that decodes is at least that long.
#[verifier::external_body]
fn decode_and_check_merkle_root(raw: &Vec<u8>) -> (r: Option<bool>)
    ensures
        r == block_merkle_root_ok(raw@),
        r is Some ==> raw@.len() >= 80,
{
    match bitcoin::consensus::deserialize::<Block>(raw.as_slice()) {
        Ok(block) => Some(block.check_merkle_root()),
        Err(_) => None,
    }
}

/// Bytes 36 to 68 of a block header: its merkle root.
pub open spec fn header_merkle_root(header: Seq<u8>) -> Seq<u8> {
    header.subrange(36, 68)
}

/// Whether a block's bytes start with the stored header and commit, through
/// it, to the block's own transactions.
pub open spec fn block_matches_header(raw: Seq<u8>, header: Seq<u8>) -> bool {
    &&& raw.len() >= 80
    &&& raw.subrange(0, 80) == header
    &&& block_merkle_root_ok(raw) == Some(true)
}

/// Whether a downloaded block is the one the chain expects: it matches the
/// stored header, and that header hashes to the expected block hash.
pub open spec fn block_valid_for(raw: Seq<u8>, header: Seq<u8>, block_hash: Seq<u8>) -> bool {
    &&& block_matches_header(raw, header)
    &&& sha256d(header) == block_hash
}

/// The hash of a block header: the double SHA-256 of its 80 bytes.
pub fn header_hash(header: &[u8; 80]) -> (r: [u8; 32])
    ensures
        r@ == sha256d(header@),
{
    let mut header_bytes: Vec<u8> = Vec::new();
    let mut j: usize = 0;
    while j < 80
        invariant
            j <= 80,
            header@.len() == 80,
            header_bytes@ == header@.subrange(0, j as int),
        decreases 80 - j,
    {
        header_bytes.push(header[j]);
        j = j + 1;
    }
    assert(header@.subrange(0, 80) =~= header@);
    double_sha256(&header_bytes)
}

/// Confirmations after which a block counts as buried and its stored copy
/// can go.
pub const BURIED_CONFIRMATIONS: usize = 100;

/// The pruning horizon: blocks below this height are buried under the
/// synced tip.
pub fn buried_height(synced_height: usize) -> (r: usize)
    ensures
        r == sub_or_zero(synced_height as int, BURIED_CONFIRMATIONS as int),
{
    if synced_height >= BURIED_CONFIRMATIONS {
        synced_height - BURIED_CONFIRMATIONS
    } else {
        0
    }
}

/// Whether a filter, stored with the block of header `header`, matches a
/// non-empty script set in a form the filter reader handles.
pub open spec fn filter_matched(filter: Seq<u8>, header: Seq<u8>, scripts: Seq<Vec<u8>>) -> bool {
    &&& scripts.len() > 0
    &&& filter_count_in_range(filter)
    &&& filter_match_any(filter, sha256d(header), scripts_view(scripts)) == Some(true)
}

/// Checks a downloaded block against the stored header of its height and
/// the hash the filter was announced under.
pub fn check_full_block(raw: &Vec<u8>, header: &[u8; 80], block_hash: &[u8; 32]) -> (r: Result<
    (),
    CompactFiltersError,
>)
    ensures
        r is Ok <==> block_valid_for(raw@, header@, block_hash@),
        r is Err ==> (r matches Err(CompactFiltersError::InvalidResponse)),
{
    let merkle_ok = decode_and_check_merkle_root(raw);
    if merkle_ok != Some(true) {
        return Err(CompactFiltersError::InvalidResponse);
    }
    let mut i: usize = 0;
    while i < 80
        invariant
            i <= 80,
            raw@.len() >= 80,
            header@.len() == 80,
            forall|k: int| 0 <= k < i ==> raw@[k] == header@[k],
        decreases 80 - i,
    {
        if raw[i] != header[i] {
            assert(raw@.subrange(0, 80)[i as int] != header@[i as int]);
            return Err(CompactFiltersError::InvalidResponse);
        }
        i = i + 1;
    }
    assert(raw@.subrange(0, 80) =~= header@);
    assert(block_matches_header(raw@, header@));
    let hash = header_hash(&header);
    let mut k: usize = 0;
    while k < 32
        invariant
            k <= 32,
            hash@.len() == 32,
            block_hash@.len() == 32,
            forall|m: int| 0 <= m < k ==> hash@[m] == block_hash@[m],
            hash@ == sha256d(header@),
            block_matches_header(raw@, header@),
        decreases 32 - k,
    {
        if hash[k] != block_hash[k] {
            assert(hash@[k as int] != block_hash@[k as int]);
            return Err(CompactFiltersError::InvalidResponse);
        }
        k = k + 1;
    }
    assert(hash@ =~= block_hash@);
    Ok(())
}

/// A block kept in storage with the header of its height.
#[derive(Debug)]
pub struct StoredBlock {
    pub height: usize,
    pub header: [u8; 80],
    pub raw: Vec<u8>,
    /// The compact filter whose match called for the block
    pub filter: Vec<u8>,
}

/// The full blocks that matched the wallet's filters, by ascending height,
/// one per height.
#[derive(Debug)]
pub struct FullBlockStore {
    scripts: Vec<Vec<u8>>,
    entries: Vec<StoredBlock>,
}

impl FullBlockStore {
    /// The stored blocks, by ascending height.
    pub closed spec fn spec_entries(&self) -> Seq<StoredBlock> {
        self.entries@
    }

    /// The wallet scripts whose matches the store keeps blocks for.
    pub closed spec fn spec_scripts(&self) -> Seq<Vec<u8>> {
        self.scripts@
    }

    /// Heights ascend strictly, every block matches its header, and its
    /// filter matched the store's scripts.
    pub open spec fn wf(&self) -> bool {
        &&& forall|i: int, j: int|
            0 <= i < j < self.spec_entries().len() ==> #[trigger] self.spec_entries()[i].height
                < #[trigger] self.spec_entries()[j].height
        &&& forall|i: int|
            0 <= i < self.spec_entries().len() ==> block_matches_header(
                #[trigger] self.spec_entries()[i].raw@,
                self.spec_entries()[i].header@,
            )
        &&& forall|i: int|
            0 <= i < self.spec_entries().len() ==> filter_matched(
                #[trigger] self.spec_entries()[i].filter@,
                self.spec_entries()[i].header@,
                self.spec_scripts(),
            )
    }

    /// An empty store for the blocks that match `scripts`.
    pub fn new(scripts: Vec<Vec<u8>>) -> (s: Self)
        ensures
            s.wf(),
            s.spec_entries().len() == 0,
            s.spec_scripts() == scripts@,
    {
        FullBlockStore { scripts, entries: Vec::new() }
    }

    /// Whether the block of hash `block_hash` is already stored at `height`.
    pub fn has_block(&self, height: usize, block_hash: &[u8; 32]) -> (r: bool)
        ensures
            r == exists|i: int|
                0 <= i < self.spec_entries().len() && #[trigger] self.spec_entries()[i].height == height
                    && sha256d(self.spec_entries()[i].header@) == block_hash@,
    {
        let mut i: usize = 0;
        while i < self.entries.len()
            invariant
                i <= self.spec_entries().len(),
                forall|k: int|
                    0 <= k < i ==> !(#[trigger] self.spec_entries()[k].height == height && sha256d(
                        self.spec_entries()[k].header@,
                    ) == block_hash@),
            decreases self.spec_entries().len() - i,
        {
            let e = &self.entries[i];
            if e.height == height {
                let h = header_hash(&e.header);
                if same_hash(&h, block_hash) {
                    return true;
                }
            }
            i = i + 1;
        }
        false
    }

    /// Drops the blocks buried under `synced_height`.
    pub fn prune_buried(&mut self, synced_height: usize)
        requires
            old(self).wf(),
        ensures
            final(self).wf(),
            final(self).spec_scripts() == old(self).spec_scripts(),
            forall|i: int|
                0 <= i < final(self).spec_entries().len() ==> #[trigger] final(self).spec_entries()[i].height
                    >= sub_or_zero(synced_height as int, BURIED_CONFIRMATIONS as int),
            forall|i: int|
                0 <= i < old(self).spec_entries().len() && old(self).spec_entries()[i].height >= sub_or_zero(
                    synced_height as int,
                    BURIED_CONFIRMATIONS as int,
                ) ==> final(self).spec_entries().contains(#[trigger] old(self).spec_entries()[i]),
            forall|i: int|
                0 <= i < final(self).spec_entries().len() ==> old(self).spec_entries().contains(
                    #[trigger] final(self).spec_entries()[i],
                ),
    {
        let h = buried_height(synced_height);
        self.delete_blocks_until(h);
    }

    /// Number of stored blocks.
    pub fn len(&self) -> (n: usize)
        ensures
            n == self.spec_entries().len(),
    {
        self.entries.len()
    }

    /// The `i`-th stored block, in ascending height.
    pub fn get(&self, i: usize) -> (b: &StoredBlock)
        requires
            i < self.spec_entries().len(),
        ensures
            *b == self.spec_entries()[i as int],
    {
        &self.entries[i]
    }

    /// Stores a downloaded block at its height after checking it against the
    /// header stored there and the expected hash; a block already stored at
    /// that height is replaced. A block that fails the check is refused and
    /// the store is left as it was.
    pub fn store_block(
        &mut self,
        height: usize,
        raw: Vec<u8>,
        header: [u8; 80],
        block_hash: &[u8; 32],
        filter: Vec<u8>,
    ) -> (r: Result<(), CompactFiltersError>)
        requires
            old(self).wf(),
        ensures
            final(self).wf(),
            final(self).spec_scripts() == old(self).spec_scripts(),
            r is Ok <==> block_valid_for(raw@, header@, block_hash@) && filter_matched(
                filter@,
                header@,
                old(self).spec_scripts(),
            ),
            !block_valid_for(raw@, header@, block_hash@) ==> (r matches Err(
                CompactFiltersError::InvalidResponse,
            )),
            block_valid_for(raw@, header@, block_hash@) && !filter_matched(filter@, header@, old(self).spec_scripts())
                ==> (r matches Err(CompactFiltersError::InvalidFilter)),
            r is Err ==> *final(self) == *old(self),
            r is Ok ==> {
                &&& exists|i: int|
                    0 <= i < final(self).spec_entries().len() && #[trigger] final(self).spec_entries()[i]
                        == (StoredBlock { height, header, raw, filter })
                &&& forall|i: int|
                    0 <= i < old(self).spec_entries().len() && old(self).spec_entries()[i].height != height
                        ==> final(self).spec_entries().contains(#[trigger] old(self).spec_entries()[i])
                &&& forall|i: int|
                    0 <= i < final(self).spec_entries().len() ==> #[trigger] final(self).spec_entries()[i].height
                        == height || old(self).spec_entries().contains(final(self).spec_entries()[i])
            },
    {
        let checked = check_full_block(&raw, &header, block_hash);
        if checked.is_err() {
            return checked;
        }
        if self.scripts.len() == 0 || !filter_count_ok(&filter) {
            return Err(CompactFiltersError::InvalidFilter);
        }
        match bip158_match_any(&filter, block_hash, &self.scripts) {
            Ok(true) => {},
            _ => {
                return Err(CompactFiltersError::InvalidFilter);
            },
        }
        let ghost old_entries = self.entries@;
        let mut p: usize = 0;
        while p < self.entries.len() && self.entries[p].height < height
            invariant
                p <= self.entries@.len(),
                self.entries@ == old_entries,
                forall|k: int| 0 <= k < p ==> #[trigger] old_entries[k].height < height,
            decreases self.entries@.len() - p,
        {
            p = p + 1;
        }
        let replace = p < self.entries.len() && self.entries[p].height == height;
        let entry = StoredBlock { height, header, raw, filter };
        if replace {
            self.entries.set(p, entry);
            assert(self.entries@[p as int] == entry);
            assert forall|i: int|
                0 <= i < old_entries.len() && old_entries[i].height != height implies self.entries@.contains(
                #[trigger] old_entries[i]) by {
                assert(self.entries@[i] == old_entries[i]);
            }
            assert forall|i: int|
                0 <= i < self.entries@.len() && self.entries@[i].height != height implies old_entries.contains(
                #[trigger] self.entries@[i]) by {
                assert(self.entries@[i] == old_entries[i]);
            }
        } else {
            self.entries.insert(p, entry);
            assert(self.entries@[p as int] == entry);
            assert forall|i: int|
                0 <= i < old_entries.len() && old_entries[i].height != height implies self.entries@.contains(
                #[trigger] old_entries[i]) by {
                if i < p {
                    assert(self.entries@[i] == old_entries[i]);
                } else {
                    assert(self.entries@[i + 1] == old_entries[i]);
                }
            }
            assert forall|i: int|
                0 <= i < self.entries@.len() && self.entries@[i].height != height implies old_entries.contains(
                #[trigger] self.entries@[i]) by {
                if i < p {
                    assert(self.entries@[i] == old_entries[i]);
                } else {
                    assert(self.entries@[i] == old_entries[i - 1]);
                }
            }
        }
        Ok(())
    }

    /// Deletes every stored block below height `height`.
    pub fn delete_blocks_until(&mut self, height: usize)
        requires
            old(self).wf(),
        ensures
            final(self).wf(),
            final(self).spec_scripts() == old(self).spec_scripts(),
            forall|i: int|
                0 <= i < final(self).spec_entries().len() ==> #[trigger] final(self).spec_entries()[i].height
                    >= height,
            forall|i: int|
                0 <= i < old(self).spec_entries().len() && old(self).spec_entries()[i].height >= height
                    ==> final(self).spec_entries().contains(#[trigger] old(self).spec_entries()[i]),
            forall|i: int|
                0 <= i < final(self).spec_entries().len() ==> old(self).spec_entries().contains(
                    #[trigger] final(self).spec_entries()[i],
                ),
    {
        let ghost old_entries = self.entries@;
        let mut p: usize = 0;
        while p < self.entries.len() && self.entries[p].height < height
            invariant
                p <= self.entries@.len(),
                self.entries@ == old_entries,
                forall|k: int| 0 <= k < p ==> #[trigger] old_entries[k].height < height,
            decreases self.entries@.len() - p,
        {
            p = p + 1;
        }
        let kept = self.entries.split_off(p);
        self.entries = kept;
        assert forall|i: int| 0 <= i < self.entries@.len() implies #[trigger] self.entries@[i].height >= height by {
            assert(self.entries@[i] == old_entries[i + p]);
            if i > 0 {
                assert(old_entries[p as int].height < old_entries[i + p].height);
            }
        }
        assert forall|i: int|
            0 <= i < old_entries.len() && old_entries[i].height >= height implies self.entries@.contains(
            #[trigger] old_entries[i]) by {
            assert(self.entries@[i - p] == old_entries[i]);
        }
        assert forall|i: int| 0 <= i < self.entries@.len() implies old_entries.contains(#[trigger] self.entries@[i]) by {
            assert(self.entries@[i] == old_entries[i + p]);
        }
    }
}

/// Every stored full block carries the merkle root of the header stored at
/// its height, that root is the one of the block's own transactions, and
/// the block's filter matched the wallet scripts of the store.
pub proof fn lemma_stored_blocks_match_headers(store: FullBlockStore)
    requires
        store.wf(),
    ensures
        forall|i: int|
            0 <= i < store.spec_entries().len() ==> {
                let b = #[trigger] store.spec_entries()[i];
                &&& header_merkle_root(b.raw@.subrange(0, 80)) == header_merkle_root(b.header@)
                &&& block_merkle_root_ok(b.raw@) == Some(true)
                &&& filter_matched(b.filter@, b.header@, store.spec_scripts())
            },
{
    assert forall|i: int| 0 <= i < store.spec_entries().len() implies {
        let b = #[trigger] store.spec_entries()[i];
        &&& header_merkle_root(b.raw@.subrange(0, 80)) == header_merkle_root(b.header@)
        &&& block_merkle_root_ok(b.raw@) == Some(true)
        &&& filter_matched(b.filter@, b.header@, store.spec_scripts())
    } by {
        assert(block_matches_header(store.spec_entries()[i].raw@, store.spec_entries()[i].header@));
    }
}

} // verus!
