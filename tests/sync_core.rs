use compact_filters::{
    download_decision, filters_progress, headers_progress, is_snapshot_name, next_last_index,
    on_match, process_tx, snapshots_to_recover, sync_costs, txs_to_drop, BitcoinPeerConfig,
    BundleState, BundleTracker, Capability, CompactFiltersBlockchain, CompactFiltersError,
    buried_height, check_full_block, filter_count_ok, should_apply_snapshot, FilterHeaderChain,
    FullBlockStore, BURIED_CONFIRMATIONS,
    OutputView, PreviousOutput, ScriptType, TxView,
};

fn genesis_filter() -> (Vec<u8>, [u8; 32], Vec<u8>) {
    let block = bitcoin::blockdata::constants::genesis_block(bitcoin::Network::Bitcoin);
    let filter = bitcoin::util::bip158::BlockFilter::new_script_filter(&block, |_| {
        Ok(bitcoin::Script::new())
    })
    .unwrap();
    let hash = <bitcoin::BlockHash as bitcoin::hashes::Hash>::into_inner(block.block_hash());
    let script = block.txdata[0].output[0].script_pubkey.to_bytes();
    (filter.content, hash, script)
}

fn pay(value: u64, path: Option<(ScriptType, u32)>) -> OutputView {
    OutputView { value, path }
}

#[test]
fn new_without_peers_fails() {
    let r = CompactFiltersBlockchain::<u8, ()>::new(vec![], (), None);
    assert!(matches!(r, Err(CompactFiltersError::NoPeers)));
}

#[test]
fn new_keeps_peers_and_skip() {
    let b = CompactFiltersBlockchain::new(vec![7u8, 9u8], "store", Some(500_000)).unwrap();
    assert_eq!(b.peers(), &vec![7u8, 9u8]);
    assert_eq!(*b.first_peer(), 7u8);
    assert_eq!(*b.headers(), "store");
    assert_eq!(b.skip_blocks(), 500_000);
    let c = CompactFiltersBlockchain::new(vec![1u8], (), None).unwrap();
    assert_eq!(c.skip_blocks(), 0);
}

#[test]
fn capabilities_hold_full_history() {
    let b = CompactFiltersBlockchain::new(vec![1u8], (), None).unwrap();
    assert_eq!(b.get_capabilities(), vec![Capability::FullHistory]);
}

#[test]
fn peer_config_holds_its_fields() {
    let c = BitcoinPeerConfig {
        address: "127.0.0.1:18333".to_string(),
        socks5: None,
        socks5_credentials: Some(("user".to_string(), "SECRET-REDACTED".to_string())),
    };
    let d = c.clone();
    assert_eq!(d.address, "127.0.0.1:18333");
    assert!(d.socks5.is_none());
}

#[test]
fn match_on_genesis_filter_downloads() {
    let (content, hash, script) = genesis_filter();
    let mut last: usize = 800_000;
    let r = on_match(&content, &hash, &vec![script], false, 0, &mut last);
    assert!(matches!(r, Ok(true)));
    assert_eq!(last, 0);
}

#[test]
fn match_on_stored_block_is_not_downloaded() {
    let (content, hash, script) = genesis_filter();
    let mut last: usize = 800_000;
    let r = on_match(&content, &hash, &vec![script], true, 0, &mut last);
    assert!(matches!(r, Ok(false)));
    assert_eq!(last, 800_000);
}

#[test]
fn foreign_script_does_not_match() {
    let (content, hash, _) = genesis_filter();
    let mut last: usize = 10;
    let r = on_match(&content, &hash, &vec![vec![0x51u8]], false, 5, &mut last);
    assert!(matches!(r, Ok(false)));
    assert_eq!(last, 10);
}

#[test]
fn empty_script_set_matches_nothing() {
    let (content, hash, _) = genesis_filter();
    let mut last: usize = 10;
    let r = on_match(&content, &hash, &vec![], false, 5, &mut last);
    assert!(matches!(r, Ok(false)));
    assert_eq!(last, 10);
}

#[test]
fn oversized_element_count_is_invalid() {
    let mut last: usize = 10;
    let r = on_match(&vec![0xffu8, 1, 2, 3], &[0u8; 32], &vec![vec![1u8]], false, 5, &mut last);
    assert!(matches!(r, Err(CompactFiltersError::InvalidFilter)));
    assert_eq!(last, 10);
}

#[test]
fn truncated_filter_gives_bip158_error() {
    let mut last: usize = 10;
    let r = on_match(&vec![0x05u8], &[0u8; 32], &vec![vec![1u8]], false, 5, &mut last);
    assert!(matches!(r, Err(CompactFiltersError::BIP158(_))));
    assert_eq!(last, 10);
}

#[test]
fn download_lowers_last_synced_only() {
    let mut last: usize = 100;
    assert!(download_decision(true, false, 40, &mut last));
    assert_eq!(last, 40);
    assert!(download_decision(true, false, 70, &mut last));
    assert_eq!(last, 40);
    assert!(!download_decision(false, false, 10, &mut last));
    assert_eq!(last, 40);
}

#[test]
fn fresh_sync_without_scripts() {
    let costs = sync_costs(800_000, 0, 0, &vec![]);
    assert_eq!(costs.expected_bundles, 801);
    assert_eq!(costs.headers_cost, 800_000);
    assert_eq!(costs.filters_cost, 801 * 11_600);
    assert_eq!(costs.total_cost, 800_000 + 801 * 11_600 + 20_000);
    let tracker = BundleTracker::new(800_000, 0, &vec![]);
    assert_eq!(tracker.len(), 801);
    assert_eq!(tracker.pruned_bundles(), 0);
    assert_eq!(tracker.state(0), BundleState::Init);
    assert_eq!(tracker.state(800), BundleState::Tip);
    let (content, hash, _) = genesis_filter();
    let mut last: usize = 800_000;
    assert!(matches!(on_match(&content, &hash, &vec![], false, 0, &mut last), Ok(false)));
    assert_eq!(last, 800_000);
    assert!(txs_to_drop(&vec![], last).is_empty());
}

#[test]
fn fresh_sync_with_one_match() {
    let mut last: usize = 800_000;
    assert!(download_decision(true, false, 700_100, &mut last));
    assert_eq!(last, 700_100);
    let tx = TxView {
        inputs: vec![None],
        outputs: vec![pay(50_000, Some((ScriptType::External, 4))), pay(1_000, None)],
    };
    let mut internal = None;
    let mut external = None;
    let e = process_tx(&tx, &mut internal, &mut external);
    assert_eq!(e.received, 50_000);
    assert_eq!(e.sent, 0);
    assert_eq!(e.new_utxos, vec![0]);
    assert!(e.spent_inputs.is_empty());
    assert_eq!(e.fees, 0);
    assert!(e.record);
    assert_eq!(external, Some(4));
    assert_eq!(internal, None);
    assert_eq!(next_last_index(None, external), Some(5));
    assert_eq!(next_last_index(Some(9), external), None);
}

#[test]
fn resumed_sync_skips_pruned_bundles() {
    let stored = vec![true; 750];
    let mut tracker = BundleTracker::new(800_000, 0, &stored);
    assert_eq!(tracker.pruned_bundles(), 750);
    let costs = sync_costs(800_000, 0, 750_000, &stored);
    assert_eq!(costs.headers_cost, 50_000);
    assert_eq!(costs.expected_bundles, 51);
    let mut claimed = 0;
    while let Some(i) = tracker.claim_next() {
        assert!(i >= 750);
        assert!(tracker.complete(i, 0).is_ok());
        claimed += 1;
    }
    assert_eq!(claimed, 51);
    assert_eq!(tracker.pruned_bundles(), 801);
}

#[test]
fn reorg_drops_transactions_from_new_match() {
    let mut last: usize = 800_000;
    assert!(download_decision(true, false, 799_990, &mut last));
    let heights = vec![Some(799_995), Some(700_000), None, Some(799_990)];
    assert_eq!(txs_to_drop(&heights, last), vec![0, 2, 3]);
    let tx = TxView {
        inputs: vec![],
        outputs: vec![pay(20_000, Some((ScriptType::Internal, 2)))],
    };
    let mut internal = Some(1);
    let mut external = None;
    let e = process_tx(&tx, &mut internal, &mut external);
    assert_eq!(e.new_utxos, vec![0]);
    assert_eq!(internal, Some(2));
}

#[test]
fn mempool_spend_is_recorded_as_sent() {
    let tx = TxView {
        inputs: vec![Some(PreviousOutput { value: 30_000, is_mine: true })],
        outputs: vec![pay(29_000, None)],
    };
    let mut internal = None;
    let mut external = None;
    let e = process_tx(&tx, &mut internal, &mut external);
    assert_eq!(e.sent, 30_000);
    assert_eq!(e.received, 0);
    assert_eq!(e.spent_inputs, vec![0]);
    assert_eq!(e.fees, 1_000);
    assert!(e.record);
}

#[test]
fn snapshot_partitions_are_recovered() {
    let names: Vec<Vec<u8>> = ["default", "headers", "_headers:1", "_filter_headers:1", "_headers"]
        .iter()
        .map(|s| s.as_bytes().to_vec())
        .collect();
    assert_eq!(snapshots_to_recover(&names), vec![2]);
    assert!(is_snapshot_name(b"_headers:"));
    assert!(!is_snapshot_name(b"headers:_"));
}

#[test]
fn foreign_transaction_is_not_recorded() {
    let tx = TxView {
        inputs: vec![Some(PreviousOutput { value: 5, is_mine: false }), None],
        outputs: vec![pay(3, None)],
    };
    let mut internal = None;
    let mut external = Some(3);
    let e = process_tx(&tx, &mut internal, &mut external);
    assert!(!e.record);
    assert_eq!(e.fees, 2);
    assert_eq!(external, Some(3));
}

#[test]
fn fees_are_zero_when_outputs_exceed_known_inputs() {
    let tx = TxView {
        inputs: vec![Some(PreviousOutput { value: 10, is_mine: true })],
        outputs: vec![pay(25, None)],
    };
    let e = process_tx(&tx, &mut None, &mut None);
    assert_eq!(e.fees, 0);
    assert_eq!(e.sent, 10);
}

#[test]
fn skip_beyond_tip_leaves_no_bundle() {
    let mut tracker = BundleTracker::new(800_500, 900_000, &vec![]);
    assert_eq!(tracker.pruned_bundles(), tracker.len());
    assert_eq!(tracker.claim_next(), None);
}

#[test]
fn failed_bundle_returns_to_pool() {
    let mut tracker = BundleTracker::new(2_500, 0, &vec![]);
    assert_eq!(tracker.claim_next(), Some(0));
    assert_eq!(tracker.claim_next(), Some(1));
    assert!(matches!(tracker.complete(0, 1), Err(CompactFiltersError::MissingBlock)));
    assert_eq!(tracker.state(0), BundleState::Init);
    tracker.release(1);
    assert_eq!(tracker.state(1), BundleState::Init);
    assert_eq!(tracker.claim_next(), Some(0));
    assert_eq!(tracker.pruned_flags(), vec![false, false, false]);
    assert!(tracker.complete(0, 0).is_ok());
    assert_eq!(tracker.pruned_flags(), vec![true, false, false]);
    let restarted = BundleTracker::new(2_500, 0, &tracker.pruned_flags());
    assert_eq!(restarted.state(0), BundleState::Pruned);
    assert_eq!(restarted.state(1), BundleState::Init);
    assert_eq!(restarted.state(2), BundleState::Tip);
}

#[test]
fn progress_is_monotonic() {
    let costs = sync_costs(1_000, 0, 0, &vec![]);
    assert_eq!(costs.expected_bundles, 2);
    assert_eq!(headers_progress(500, 0), 500);
    assert_eq!(headers_progress(0, 10), 0);
    assert_eq!(filters_progress(&costs, 0), 1_000);
    assert_eq!(filters_progress(&costs, 2), 1_000 + 2 * 11_600);
    assert!(filters_progress(&costs, 2) < costs.total_cost as u128);
}

fn genesis_filter_hash(content: &[u8]) -> [u8; 32] {
    let h = <bitcoin::FilterHash as bitcoin::hashes::Hash>::hash(content);
    <bitcoin::FilterHash as bitcoin::hashes::Hash>::into_inner(h)
}

#[test]
fn filter_header_chain_matches_bip157_header() {
    let (content, _, _) = genesis_filter();
    let filter = bitcoin::util::bip158::BlockFilter::new(&content);
    let expected = <bitcoin::FilterHash as bitcoin::hashes::Hash>::into_inner(
        filter.filter_id(&bitcoin::FilterHash::default()),
    );
    let mut chain = FilterHeaderChain::new([0u8; 32]);
    assert_eq!(chain.tip(), [0u8; 32]);
    let hashes = vec![genesis_filter_hash(&content)];
    assert!(chain.extend(&hashes, Some(expected)).is_ok());
    assert_eq!(chain.len(), 1);
    assert_eq!(chain.header(0), expected);
    assert_eq!(chain.tip(), expected);
    assert!(chain.check_filter(0, &content).is_ok());
    assert!(matches!(
        chain.check_filter(0, &vec![0u8]),
        Err(CompactFiltersError::InvalidFilter)
    ));
}

#[test]
fn filter_header_batch_off_checkpoint_is_refused() {
    let mut chain = FilterHeaderChain::new([0u8; 32]);
    let hashes = vec![[1u8; 32], [2u8; 32]];
    let r = chain.extend(&hashes, Some([3u8; 32]));
    assert!(matches!(r, Err(CompactFiltersError::InvalidFilterHeader)));
    assert_eq!(chain.len(), 0);
    assert!(chain.extend(&hashes, None).is_ok());
    assert_eq!(chain.len(), 2);
    let first = chain.header(0);
    assert_ne!(first, [0u8; 32]);
    assert_ne!(chain.header(1), first);
    let mut again = FilterHeaderChain::new([0u8; 32]);
    assert!(again.extend(&vec![[1u8; 32]], Some(first)).is_ok());
    assert!(again.extend(&vec![[2u8; 32]], Some(chain.tip())).is_ok());
}

fn genesis_block_bytes() -> (Vec<u8>, [u8; 80], [u8; 32]) {
    let block = bitcoin::blockdata::constants::genesis_block(bitcoin::Network::Bitcoin);
    let raw = bitcoin::consensus::serialize(&block);
    let mut header = [0u8; 80];
    header.copy_from_slice(&raw[0..80]);
    let hash = <bitcoin::BlockHash as bitcoin::hashes::Hash>::into_inner(block.block_hash());
    (raw, header, hash)
}

#[test]
fn genesis_block_passes_its_check() {
    let (raw, header, hash) = genesis_block_bytes();
    assert!(check_full_block(&raw, &header, &hash).is_ok());
}

#[test]
fn block_with_wrong_hash_or_header_is_refused() {
    let (raw, header, hash) = genesis_block_bytes();
    let mut other_hash = hash;
    other_hash[0] ^= 1;
    assert!(matches!(
        check_full_block(&raw, &header, &other_hash),
        Err(CompactFiltersError::InvalidResponse)
    ));
    let mut other_header = header;
    other_header[40] ^= 1;
    assert!(matches!(
        check_full_block(&raw, &other_header, &hash),
        Err(CompactFiltersError::InvalidResponse)
    ));
    let mut bad_root = raw.clone();
    bad_root[40] ^= 1;
    let mut bad_header = header;
    bad_header[40] ^= 1;
    assert!(check_full_block(&bad_root, &bad_header, &hash).is_err());
    assert!(check_full_block(&raw[0..50].to_vec(), &header, &hash).is_err());
}

#[test]
fn full_block_store_keeps_heights_ascending_and_prunes() {
    let (raw, header, hash) = genesis_block_bytes();
    let (filter, _, script) = genesis_filter();
    let mut store = FullBlockStore::new(vec![script]);
    assert!(store.store_block(700_100, raw.clone(), header, &hash, filter.clone()).is_ok());
    assert!(store.store_block(600_000, raw.clone(), header, &hash, filter.clone()).is_ok());
    assert!(store.store_block(700_100, raw.clone(), header, &hash, filter.clone()).is_ok());
    assert_eq!(store.len(), 2);
    assert_eq!(store.get(0).height, 600_000);
    assert_eq!(store.get(1).height, 700_100);
    assert!(store.has_block(700_100, &hash));
    assert!(!store.has_block(650_000, &hash));
    let mut wrong = hash;
    wrong[31] ^= 0xff;
    assert!(!store.has_block(700_100, &wrong));
    assert!(matches!(
        store.store_block(650_000, raw.clone(), header, &wrong, filter.clone()),
        Err(CompactFiltersError::InvalidResponse)
    ));
    assert_eq!(store.len(), 2);
    store.delete_blocks_until(700_000);
    assert_eq!(store.len(), 1);
    assert_eq!(store.get(0).height, 700_100);
    assert_eq!(store.get(0).raw, raw);
    assert_eq!(store.get(0).filter, filter);
    store.prune_buried(700_200);
    assert_eq!(store.len(), 1);
    store.prune_buried(700_201);
    assert_eq!(store.len(), 0);
}

#[test]
fn full_block_store_refuses_unmatched_filter() {
    let (raw, header, hash) = genesis_block_bytes();
    let (filter, _, _) = genesis_filter();
    let mut store = FullBlockStore::new(vec![vec![0x51u8]]);
    assert!(matches!(
        store.store_block(0, raw.clone(), header, &hash, filter.clone()),
        Err(CompactFiltersError::InvalidFilter)
    ));
    let mut empty = FullBlockStore::new(vec![]);
    assert!(matches!(
        empty.store_block(0, raw, header, &hash, filter),
        Err(CompactFiltersError::InvalidFilter)
    ));
    assert_eq!(store.len(), 0);
    assert_eq!(empty.len(), 0);
}

#[test]
fn buried_height_saturates() {
    assert_eq!(buried_height(800_000), 800_000 - BURIED_CONFIRMATIONS);
    assert_eq!(buried_height(50), 0);
}

#[test]
fn element_count_bound_follows_the_reader() {
    let mut last: usize = 10;
    let at_bound = vec![0xfdu8, 0xbf, 0x2a];
    assert!(filter_count_ok(&at_bound));
    assert!(matches!(
        on_match(&at_bound, &[0u8; 32], &vec![vec![1u8]], false, 5, &mut last),
        Err(CompactFiltersError::BIP158(_))
    ));
    let over = vec![0xfdu8, 0xc0, 0x2a, 0, 0];
    assert!(!filter_count_ok(&over));
    assert!(matches!(
        on_match(&over, &[0u8; 32], &vec![vec![1u8]], false, 5, &mut last),
        Err(CompactFiltersError::InvalidFilter)
    ));
    assert!(!filter_count_ok(&vec![0xfeu8, 0, 0, 1, 0]));
    assert!(filter_count_ok(&vec![0xfdu8]));
    assert!(filter_count_ok(&vec![]));
    assert_eq!(last, 10);
}

#[test]
fn skip_beyond_peer_height_costs_no_filters() {
    let costs = sync_costs(800_000, 900_000, 0, &vec![]);
    assert_eq!(costs.expected_bundles, 0);
    assert_eq!(costs.filters_cost, 0);
    assert_eq!(costs.total_cost, 800_000 + 20_000);
    let partial = sync_costs(2_500, 1_500, 0, &vec![]);
    assert_eq!(partial.expected_bundles, 2);
    assert!(filters_progress(&partial, 2) < partial.total_cost as u128);
}

#[test]
fn snapshot_applies_only_with_more_work() {
    let live = [u64::MAX, u64::MAX, u64::MAX, 0];
    assert!(should_apply_snapshot(Some([0, 0, 0, 1]), live));
    assert!(!should_apply_snapshot(Some(live), live));
    assert!(!should_apply_snapshot(Some([0, 0, 0, 1]), [0, 0, 0, 2]));
    assert!(should_apply_snapshot(Some([5, 0, 0, 0]), [4, 0, 0, 0]));
    assert!(!should_apply_snapshot(None, [0, 0, 0, 0]));
}

#[test]
fn rerun_with_stored_blocks_fetches_nothing() {
    let mut last: usize = 800_000;
    for height in [700_100usize, 750_000, 799_990] {
        assert!(!download_decision(true, true, height, &mut last));
    }
    assert_eq!(last, 800_000);
    let heights = vec![Some(700_100), Some(750_000), None];
    assert_eq!(txs_to_drop(&heights, last), vec![2]);
}
