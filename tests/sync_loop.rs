use papyrus_state_sync::diff::StateDiff;
use papyrus_state_sync::network::{BlockID, BlockQuery, Direction, GetStreamProtocol, PROTOCOL_NAME};
use papyrus_state_sync::store::{classify, store_state_diff, ChainStore, RouteOutcome, Verdict};
use papyrus_state_sync::sync::{Action, Input, Phase, StateDiffSync, SyncConfig, SyncError};

fn config() -> SyncConfig {
    SyncConfig { block_propagation_sleep_ms: 1000, recoverable_error_sleep_ms: 3000 }
}

fn diff_with_deploy(address: u64, class_hash: u64) -> StateDiff {
    let mut d = StateDiff::empty();
    d.deployed_contracts = vec![(address, class_hash)];
    d
}

/// Forwards one item through the loop and the commit router, as a driver does.
fn forward(
    sync: &mut StateDiffSync,
    store: &mut ChainStore,
    n: u64,
    h: u64,
    diff: StateDiff,
) -> (RouteOutcome, Action) {
    let event = sync.accept_item(n, h, diff, vec![]).unwrap();
    let outcome = store_state_diff(
        store,
        event.block_number,
        event.block_hash,
        event.state_diff,
        event.deployed_contract_class_definitions,
    );
    let verdict = classify(store, n, h);
    (outcome, sync.step(Input::Forwarded { block_number: n, verdict }))
}

#[test]
fn catching_up_commits_then_idles() {
    let mut store = ChainStore::new();
    store.append_header(Some(0xA));
    store.append_header(None);
    let mut sync = StateDiffSync::new(config());
    let markers =
        Input::Markers { state_marker: store.get_state_marker(), header_marker: store.get_header_marker() };
    assert_eq!(sync.step(markers), Action::Fetch { from: 0, to: 2 });

    let (outcome, action) = forward(&mut sync, &mut store, 0, 0xA, diff_with_deploy(1, 2));
    assert_eq!(outcome, RouteOutcome::Committed);
    assert_eq!(action, Action::PullNext);
    assert_eq!(store.get_state_marker(), 1);

    let (outcome, action) = forward(&mut sync, &mut store, 1, 0xB, diff_with_deploy(3, 4));
    assert_eq!(outcome, RouteOutcome::Committed);
    assert_eq!(action, Action::PullNext);
    assert_eq!(store.get_state_marker(), 2);

    assert_eq!(sync.step(Input::StreamEnded), Action::ReadMarkers);
    let markers =
        Input::Markers { state_marker: store.get_state_marker(), header_marker: store.get_header_marker() };
    assert_eq!(sync.step(markers), Action::Sleep { millis: 1000 });
    assert_eq!(sync.phase, Phase::Waiting);
}

#[test]
fn reorg_quarantines_and_backs_off() {
    let mut store = ChainStore::new();
    for n in 0..5u64 {
        store.append_header(Some(n));
        assert_eq!(store.append_state_diff(n, StateDiff::empty(), vec![]), Ok(()));
    }
    store.append_header(Some(0xC));
    let mut sync = StateDiffSync::new(config());
    assert_eq!(
        sync.step(Input::Markers { state_marker: 5, header_marker: 6 }),
        Action::Fetch { from: 5, to: 6 }
    );
    let (outcome, action) = forward(&mut sync, &mut store, 5, 0xD, diff_with_deploy(5, 5));
    assert_eq!(outcome, RouteOutcome::Quarantined);
    assert_eq!(action, Action::Sleep { millis: 3000 });
    assert_eq!(sync.phase, Phase::Waiting);
    assert_eq!(store.get_state_marker(), 5);
    assert_eq!(store.get_state_diff(5), None);
    assert_eq!(store.get_ommer(0xD).unwrap().state_diff, diff_with_deploy(5, 5));
    assert_eq!(sync.step(Input::Woke), Action::ReadMarkers);
}

#[test]
fn idle_when_markers_are_equal() {
    let mut sync = StateDiffSync::new(config());
    assert_eq!(
        sync.step(Input::Markers { state_marker: 4, header_marker: 4 }),
        Action::Sleep { millis: 1000 }
    );
    assert_eq!(sync.step(Input::Woke), Action::ReadMarkers);
    assert_eq!(sync.phase, Phase::ReadingMarkers);
}

#[test]
fn transient_failures_are_retried_until_all_blocks_commit() {
    let mut store = ChainStore::new();
    store.append_header(Some(0x10));
    store.append_header(Some(0x11));
    let mut sync = StateDiffSync::new(config());
    let failures = 3;
    let mut failed = 0;
    let mut recoverable_sleeps = 0;
    let mut action = Action::ReadMarkers;
    let mut turns = 0;
    while turns < 100 {
        turns += 1;
        let input = match action {
            Action::ReadMarkers => Input::Markers {
                state_marker: store.get_state_marker(),
                header_marker: store.get_header_marker(),
            },
            Action::Sleep { millis } => {
                if millis == 3000 {
                    recoverable_sleeps += 1;
                }
                if millis == 1000 {
                    break;
                }
                Input::Woke
            }
            Action::Fetch { from, .. } => {
                if failed < failures {
                    failed += 1;
                    Input::Failed
                } else {
                    let h = 0x10 + from;
                    let event = sync.accept_item(from, h, StateDiff::empty(), vec![]).unwrap();
                    store_state_diff(&mut store, event.block_number, h, event.state_diff, vec![]);
                    Input::Forwarded { block_number: from, verdict: classify(&store, from, h) }
                }
            }
            Action::PullNext => match sync.phase {
                Phase::Streaming { next, end } if next < end => {
                    let h = 0x10 + next;
                    let event = sync.accept_item(next, h, StateDiff::empty(), vec![]).unwrap();
                    store_state_diff(&mut store, next, h, event.state_diff, vec![]);
                    Input::Forwarded { block_number: next, verdict: classify(&store, next, h) }
                }
                _ => Input::StreamEnded,
            },
            Action::Stop => break,
        };
        action = sync.step(input);
    }
    assert_eq!(store.get_state_marker(), 2);
    assert!(recoverable_sleeps >= failures);
}

#[test]
fn failure_and_shutdown_transitions() {
    let mut sync = StateDiffSync::new(config());
    assert_eq!(sync.step(Input::Failed), Action::Sleep { millis: 3000 });
    assert_eq!(sync.step(Input::Woke), Action::ReadMarkers);
    assert_eq!(sync.step(Input::ChannelClosed), Action::Stop);
    assert_eq!(sync.phase, Phase::Stopped);
    assert_eq!(sync.step(Input::Woke), Action::Stop);
}

#[test]
fn accept_item_rejects_items_outside_the_stream() {
    let mut sync = StateDiffSync::new(config());
    assert_eq!(
        sync.accept_item(0, 1, StateDiff::empty(), vec![]),
        Err(SyncError::NoOpenStream { found: 0 })
    );
    sync.step(Input::Markers { state_marker: 2, header_marker: 3 });
    assert_eq!(
        sync.accept_item(3, 1, StateDiff::empty(), vec![]),
        Err(SyncError::OutOfOrder { expected: 2, found: 3 })
    );
    sync.step(Input::Forwarded { block_number: 2, verdict: Verdict::Unknown });
    assert_eq!(
        sync.accept_item(3, 1, StateDiff::empty(), vec![]),
        Err(SyncError::BeyondRange { end: 3, found: 3 })
    );
}

#[test]
fn accept_item_normalizes_the_diff() {
    let mut sync = StateDiffSync::new(config());
    sync.step(Input::Markers { state_marker: 0, header_marker: 1 });
    let mut diff = StateDiff::empty();
    diff.nonces = vec![(9, 1), (2, 5)];
    let event = sync.accept_item(0, 7, diff, vec![(1, vec![0])]).unwrap();
    assert_eq!(event.state_diff.nonces, vec![(2, 5), (9, 1)]);
    assert_eq!(event.block_hash, 7);
    assert_eq!(event.deployed_contract_class_definitions, vec![(1, vec![0])]);
}

#[test]
fn query_defaults_and_protocol_name() {
    let q = BlockQuery::default();
    assert_eq!(q.start, BlockID::Number(0));
    assert_eq!(q.direction, Direction::Forward);
    assert_eq!(q.limit, 0);
    assert_eq!(GetStreamProtocol.protocol_info(), "/get_stream");
    assert_eq!(PROTOCOL_NAME, "/get_stream");
}

#[test]
fn accept_item_rejects_repeated_keys() {
    let mut sync = StateDiffSync::new(config());
    sync.step(Input::Markers { state_marker: 0, header_marker: 1 });
    let mut diff = StateDiff::empty();
    diff.storage_diffs = vec![(1, vec![(5, 1), (5, 2)])];
    assert_eq!(
        sync.accept_item(0, 7, diff, vec![]),
        Err(SyncError::DuplicateKeys { found: 0 })
    );
    assert!(!StateDiff { nonces: vec![(1, 1), (1, 2)], ..StateDiff::empty() }.is_well_formed());
    assert!(StateDiff { nonces: vec![(1, 1), (2, 2)], ..StateDiff::empty() }.is_well_formed());
}
