use papyrus_state_sync::diff::{normalize, sort_state_diff, StateDiff};

fn unordered_diff() -> StateDiff {
    StateDiff {
        deployed_contracts: vec![(9, 90), (3, 30), (5, 50)],
        storage_diffs: vec![(7, vec![(4, 44), (1, 11), (2, 22)]), (2, vec![(8, 88), (6, 66)])],
        declared_classes: vec![(12, (120, vec![1, 2])), (11, (110, vec![3]))],
        deprecated_declared_classes: vec![(31, vec![7]), (30, vec![8, 9])],
        nonces: vec![(5, 1), (4, 2), (6, 3)],
        replaced_classes: vec![(20, 200), (10, 100)],
    }
}

fn ordered_diff() -> StateDiff {
    StateDiff {
        deployed_contracts: vec![(3, 30), (5, 50), (9, 90)],
        storage_diffs: vec![(2, vec![(6, 66), (8, 88)]), (7, vec![(1, 11), (2, 22), (4, 44)])],
        declared_classes: vec![(11, (110, vec![3])), (12, (120, vec![1, 2]))],
        deprecated_declared_classes: vec![(30, vec![8, 9]), (31, vec![7])],
        nonces: vec![(4, 2), (5, 1), (6, 3)],
        replaced_classes: vec![(10, 100), (20, 200)],
    }
}

#[test]
fn normalize_orders_every_mapping_by_key() {
    assert_eq!(normalize(unordered_diff()), ordered_diff());
}

#[test]
fn normalize_twice_equals_normalize_once() {
    let once = normalize(unordered_diff());
    let twice = normalize(once.clone());
    assert_eq!(once, twice);
}

#[test]
fn normalize_of_reordered_inputs_is_identical() {
    let mut other = unordered_diff();
    other.deployed_contracts.reverse();
    other.storage_diffs.reverse();
    other.storage_diffs[0].1.reverse();
    other.nonces.swap(0, 2);
    assert_eq!(normalize(other), normalize(unordered_diff()));
}

#[test]
fn normalize_keeps_an_empty_diff_empty() {
    assert_eq!(normalize(StateDiff::empty()), StateDiff::empty());
}

#[test]
fn sort_state_diff_normalizes_in_place() {
    let mut diff = unordered_diff();
    sort_state_diff(&mut diff);
    assert_eq!(diff, ordered_diff());
}

#[test]
fn normalize_keeps_contract_with_no_storage_entries() {
    let mut diff = StateDiff::empty();
    diff.storage_diffs = vec![(4, vec![]), (1, vec![(3, 3)])];
    let r = normalize(diff);
    assert_eq!(r.storage_diffs, vec![(1, vec![(3, 3)]), (4, vec![])]);
}
