use vote_tally::merge::{merge, MergeError, ShareEntry, VotePlanShareBundle};

fn entry(p: u8, shares: &[&str]) -> ShareEntry {
    ShareEntry { proposal: vec![p], shares: shares.iter().map(|s| s.as_bytes().to_vec()).collect() }
}

#[test]
fn merge_pools_shares_per_proposal() {
    let a = VotePlanShareBundle::from_entries(vec![entry(1, &["s1"])]).unwrap();
    let b = VotePlanShareBundle::from_entries(vec![entry(1, &["s2"]), entry(2, &["s3"])]).unwrap();
    let m = merge(vec![a, b]);
    assert_eq!(m.entries(), &vec![entry(1, &["s1", "s2"]), entry(2, &["s3"])]);
}

#[test]
fn merge_keeps_bundle_order() {
    let a = VotePlanShareBundle::from_entries(vec![entry(2, &["a2"]), entry(1, &["a1"])]).unwrap();
    let b = VotePlanShareBundle::from_entries(vec![entry(1, &["b1"]), entry(3, &["b3"])]).unwrap();
    let c = VotePlanShareBundle::from_entries(vec![entry(3, &["c3"]), entry(2, &["c2"])]).unwrap();
    let m = merge(vec![a, b, c]);
    assert_eq!(
        m.entries(),
        &vec![entry(2, &["a2", "c2"]), entry(1, &["a1", "b1"]), entry(3, &["b3", "c3"])]
    );
}

#[test]
fn merge_of_nothing_is_empty() {
    assert!(merge(vec![]).entries().is_empty());
}

#[test]
fn merge_does_not_deduplicate_members() {
    let a = VotePlanShareBundle::from_entries(vec![entry(1, &["s"])]).unwrap();
    let b = VotePlanShareBundle::from_entries(vec![entry(1, &["s"])]).unwrap();
    assert_eq!(merge(vec![a, b]).entries(), &vec![entry(1, &["s", "s"])]);
}

#[test]
fn bundle_with_repeated_proposal_is_refused() {
    let r = VotePlanShareBundle::from_entries(vec![entry(1, &["x"]), entry(1, &["y"])]);
    assert_eq!(r, Err(MergeError::Deserialization));
}
