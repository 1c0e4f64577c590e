use papyrus_state_sync::diff::StateDiff;
use papyrus_state_sync::store::{
    classify, is_reverted, store_state_diff, ChainStore, RouteOutcome, StoreError, Verdict,
};

fn diff_with_nonce(address: u64, nonce: u64) -> StateDiff {
    let mut d = StateDiff::empty();
    d.nonces = vec![(address, nonce)];
    d
}

#[test]
fn new_store_has_zero_markers() {
    let store = ChainStore::new();
    assert_eq!(store.get_state_marker(), 0);
    assert_eq!(store.get_header_marker(), 0);
    assert_eq!(store.get_block_header(0), None);
    assert_eq!(store.ommer_count(), 0);
}

#[test]
fn classify_reports_each_verdict() {
    let mut store = ChainStore::new();
    store.append_header(Some(0xA));
    store.append_header(None);
    assert_eq!(classify(&store, 0, 0xA), Verdict::Confirmed);
    assert_eq!(classify(&store, 0, 0xB), Verdict::Diverged);
    assert_eq!(classify(&store, 1, 0xB), Verdict::Unknown);
    assert_eq!(classify(&store, 7, 0xB), Verdict::Unknown);
    assert_eq!(is_reverted(&store, 0, 0xB), Some(true));
    assert_eq!(is_reverted(&store, 0, 0xA), Some(false));
    assert_eq!(is_reverted(&store, 1, 0xA), None);
}

#[test]
fn append_refuses_wrong_marker() {
    let mut store = ChainStore::new();
    store.append_header(Some(1));
    store.append_header(Some(2));
    assert_eq!(
        store.append_state_diff(1, StateDiff::empty(), vec![]),
        Err(StoreError::MarkerMismatch { expected: 0, found: 1 })
    );
    assert_eq!(store.get_state_marker(), 0);
}

#[test]
fn append_refuses_to_pass_header_marker() {
    let mut store = ChainStore::new();
    assert_eq!(
        store.append_state_diff(0, StateDiff::empty(), vec![]),
        Err(StoreError::AheadOfHeaders { header_marker: 0, found: 0 })
    );
    assert_eq!(store.get_state_marker(), 0);
}

#[test]
fn ommer_insert_refuses_duplicate_hash() {
    let mut store = ChainStore::new();
    assert_eq!(store.insert_ommer_state_diff(0xD, diff_with_nonce(1, 1), vec![]), Ok(()));
    assert_eq!(
        store.insert_ommer_state_diff(0xD, diff_with_nonce(1, 2), vec![]),
        Err(StoreError::OmmerExists { block_hash: 0xD })
    );
    assert_eq!(store.ommer_count(), 1);
    assert_eq!(store.get_ommer(0xD).unwrap().state_diff, diff_with_nonce(1, 1));
    assert!(store.get_ommer(0xE).is_none());
}

#[test]
fn router_commits_confirmed_and_unknown_items() {
    let mut store = ChainStore::new();
    store.append_header(Some(0xA));
    store.append_header(None);
    assert_eq!(store_state_diff(&mut store, 0, 0xA, diff_with_nonce(1, 1), vec![]), RouteOutcome::Committed);
    assert_eq!(store_state_diff(&mut store, 1, 0xB, diff_with_nonce(1, 2), vec![]), RouteOutcome::Committed);
    assert_eq!(store.get_state_marker(), 2);
    assert_eq!(store.get_state_diff(1), Some(&diff_with_nonce(1, 2)));
    assert_eq!(store.ommer_count(), 0);
}

#[test]
fn router_skips_item_behind_the_marker() {
    let mut store = ChainStore::new();
    store.append_header(Some(0xA));
    store.append_header(Some(0xB));
    assert_eq!(store_state_diff(&mut store, 0, 0xA, StateDiff::empty(), vec![]), RouteOutcome::Committed);
    assert_eq!(
        store_state_diff(&mut store, 0, 0xA, StateDiff::empty(), vec![]),
        RouteOutcome::CommitSkipped(StoreError::MarkerMismatch { expected: 1, found: 0 })
    );
    assert_eq!(store.get_state_marker(), 1);
}

#[test]
fn router_quarantines_diverged_item_once() {
    let mut store = ChainStore::new();
    store.append_header(Some(0xC));
    assert_eq!(store_state_diff(&mut store, 0, 0xD, diff_with_nonce(2, 2), vec![]), RouteOutcome::Quarantined);
    assert_eq!(
        store_state_diff(&mut store, 0, 0xD, diff_with_nonce(2, 2), vec![]),
        RouteOutcome::QuarantineSkipped(StoreError::OmmerExists { block_hash: 0xD })
    );
    assert_eq!(store.get_state_marker(), 0);
    assert_eq!(store.get_state_diff(0), None);
    assert_eq!(store.ommer_count(), 1);
}

#[test]
fn state_marker_never_decreases_nor_passes_headers() {
    let mut store = ChainStore::new();
    let mut last = store.get_state_marker();
    store.append_header(Some(10));
    for n in 0..4u64 {
        let _ = store_state_diff(&mut store, n, 10 + n, StateDiff::empty(), vec![]);
        let now = store.get_state_marker();
        assert!(now >= last);
        assert!(now <= store.get_header_marker());
        last = now;
        store.append_header(Some(11 + n));
    }
    assert_eq!(store.get_state_marker(), 4);
}
