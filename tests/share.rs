use vote_tally::merge::ShareEntry;
use vote_tally::share::{
    bundle_shares, decode_encrypted_tally, encrypted_tallies, pick_vote_plan, share_for_tally, share_from_text,
    share_text, EncryptedProposal,
    ProposalTally, ShareError, ShareOutcome, TallyState,
};

fn proposal(id: u8, tally: Option<TallyState>) -> ProposalTally {
    ProposalTally { proposal: vec![id], tally }
}

#[test]
fn public_tallies_are_skipped_in_order() {
    let ps = vec![
        proposal(1, Some(TallyState::PrivateEncrypted(vec![10]))),
        proposal(2, Some(TallyState::Public)),
        proposal(3, Some(TallyState::PrivateEncrypted(vec![30]))),
    ];
    assert_eq!(
        encrypted_tallies(&ps),
        vec![
            EncryptedProposal { proposal: vec![1], encrypted_tally: vec![10] },
            EncryptedProposal { proposal: vec![3], encrypted_tally: vec![30] },
        ]
    );
}

#[test]
fn plan_without_encrypted_tallies_gives_empty_bundle() {
    let ps = vec![
        proposal(1, Some(TallyState::Public)),
        proposal(2, Some(TallyState::PrivateDecrypted)),
        proposal(3, None),
    ];
    let selected = encrypted_tallies(&ps);
    assert!(selected.is_empty());
    let bundle = bundle_shares(vec![]).unwrap();
    assert!(bundle.entries().is_empty());
}

#[test]
fn bundle_holds_one_share_per_proposal() {
    let outcomes = vec![
        ShareOutcome { proposal: vec![1], share: Some(vec![0xa1]) },
        ShareOutcome { proposal: vec![3], share: Some(vec![0xa3]) },
    ];
    let bundle = bundle_shares(outcomes).unwrap();
    assert_eq!(
        bundle.entries(),
        &vec![
            ShareEntry { proposal: vec![1], shares: vec![vec![0xa1]] },
            ShareEntry { proposal: vec![3], shares: vec![vec![0xa3]] },
        ]
    );
}

#[test]
fn malformed_tally_aborts_the_bundle() {
    let outcomes = vec![
        ShareOutcome { proposal: vec![1], share: Some(vec![0xa1]) },
        ShareOutcome { proposal: vec![2], share: None },
    ];
    assert_eq!(bundle_shares(outcomes).err(), Some(ShareError::MalformedEncryptedTally));
}

#[test]
fn repeated_proposal_gets_a_share_per_listing() {
    let outcomes = vec![
        ShareOutcome { proposal: vec![1], share: Some(vec![1]) },
        ShareOutcome { proposal: vec![2], share: Some(vec![5]) },
        ShareOutcome { proposal: vec![1], share: Some(vec![2]) },
    ];
    let bundle = bundle_shares(outcomes).unwrap();
    assert_eq!(
        bundle.entries(),
        &vec![
            ShareEntry { proposal: vec![1], shares: vec![vec![1], vec![2]] },
            ShareEntry { proposal: vec![2], shares: vec![vec![5]] },
        ]
    );
}

#[test]
fn single_tally_share_or_malformed() {
    assert_eq!(share_for_tally(Some(b"hello".to_vec())), Ok("aGVsbG8=".to_string()));
    assert_eq!(share_for_tally(None), Err(ShareError::MalformedEncryptedTally));
}

#[test]
fn corrupted_tally_text_is_malformed() {
    assert_eq!(decode_encrypted_tally("@@not base64@@"), Err(ShareError::MalformedEncryptedTally));
    assert_eq!(decode_encrypted_tally("aGVsb"), Err(ShareError::MalformedEncryptedTally));
}

#[test]
fn tally_text_decodes_to_its_bytes() {
    assert_eq!(decode_encrypted_tally("aGVsbG8="), Ok(b"hello".to_vec()));
}

#[test]
fn share_text_is_base64() {
    assert_eq!(share_text(b"hello"), "aGVsbG8=");
    assert_eq!(share_text(&[]), "");
}

#[test]
fn share_text_is_deterministic() {
    let share = vec![3u8, 1, 4, 1, 5, 9, 2, 6];
    assert_eq!(share_text(&share), share_text(&share));
    assert_eq!(decode_encrypted_tally("AQID"), decode_encrypted_tally("AQID"));
}

#[test]
fn share_text_reads_back() {
    assert_eq!(share_from_text("aGVsbG8="), Some(b"hello".to_vec()));
    assert_eq!(share_from_text(&share_text(&[0, 255, 7])), Some(vec![0, 255, 7]));
    assert_eq!(share_from_text("a"), None);
}

#[test]
fn vote_plan_is_picked_by_id_or_alone() {
    let ids = vec![b"plan-a".to_vec(), b"plan-b".to_vec()];
    assert_eq!(pick_vote_plan(&ids, &Some(b"plan-b".to_vec())), Some(1));
    assert_eq!(pick_vote_plan(&ids, &Some(b"plan-c".to_vec())), None);
    assert_eq!(pick_vote_plan(&ids, &None), None);
    assert_eq!(pick_vote_plan(&ids[..1].to_vec(), &None), Some(0));
    assert_eq!(pick_vote_plan(&vec![], &None), None);
}
