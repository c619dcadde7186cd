use vote_tally::codec::{decode, CodecError, KeyKind};
use vote_tally::committee::{
    check_threshold, encrypting_key_from_base32, validate_roster, KeyGenError, MemberKeys,
    PrivateVoteCommitteeDataManager,
};

fn roster(n: u8) -> Vec<(String, Vec<u8>)> {
    (0..n).map(|i| (format!("member{}", i), vec![i; 4])).collect()
}

fn keys(n: u8) -> Vec<MemberKeys> {
    (0..n)
        .map(|i| MemberKeys {
            communication_key: vec![0x10 + i; 32],
            member_secret_key: vec![0x20 + i; 32],
            member_public_key: vec![0x30 + i; 33],
            election_public_key: vec![0x40 + i; 33],
        })
        .collect()
}

#[test]
fn zero_threshold_is_refused() {
    let r = PrivateVoteCommitteeDataManager::new(roster(3), 0, keys(3));
    assert_eq!(r.err(), Some(KeyGenError::InvalidThreshold));
    assert_eq!(check_threshold(3, 0), Err(KeyGenError::InvalidThreshold));
}

#[test]
fn threshold_above_committee_is_refused() {
    let r = PrivateVoteCommitteeDataManager::new(roster(3), 4, keys(3));
    assert_eq!(r.err(), Some(KeyGenError::InvalidThreshold));
    assert_eq!(validate_roster(&roster(3), 4), Err(KeyGenError::InvalidThreshold));
}

#[test]
fn every_valid_threshold_gives_one_entry_per_identity() {
    for t in 1..=3usize {
        let m = PrivateVoteCommitteeDataManager::new(roster(3), t, keys(3)).unwrap();
        assert_eq!(m.members().len(), 3);
        for (i, (id, data)) in m.members().iter().enumerate() {
            assert_eq!(id, &vec![i as u8; 4]);
            assert_eq!(data.alias(), format!("member{}", i));
            assert_eq!(data.member_secret_key(), vec![0x20 + i as u8; 32]);
        }
        let secrets: Vec<Vec<u8>> = m.members().iter().map(|(_, d)| d.member_secret_key()).collect();
        assert!(secrets[0] != secrets[1] && secrets[1] != secrets[2] && secrets[0] != secrets[2]);
    }
}

#[test]
fn duplicate_identity_is_refused() {
    let mut r = roster(3);
    r[2].1 = r[0].1.clone();
    assert_eq!(validate_roster(&r, 2), Err(KeyGenError::DuplicateIdentity));
    assert_eq!(
        PrivateVoteCommitteeDataManager::new(r, 2, keys(3)).err(),
        Some(KeyGenError::DuplicateIdentity)
    );
}

#[test]
fn missing_key_material_is_refused() {
    let r = PrivateVoteCommitteeDataManager::new(roster(3), 2, keys(2));
    assert_eq!(r.err(), Some(KeyGenError::KeyCountMismatch));
}

#[test]
fn get_finds_members_by_identity() {
    let m = PrivateVoteCommitteeDataManager::new(roster(2), 1, keys(2)).unwrap();
    let d = m.get(&vec![1u8; 4]).unwrap();
    assert_eq!(d.member_public_key(), vec![0x31; 33]);
    assert_eq!(d.encrypting_vote_key(), vec![0x41; 33]);
    assert!(m.get(&vec![9u8; 4]).is_none());
    assert_eq!(m.member_public_keys(), vec![vec![0x30; 33], vec![0x31; 33]]);
}

#[test]
fn key_texts_read_back_with_their_tags() {
    let m = PrivateVoteCommitteeDataManager::new(roster(1), 1, keys(1)).unwrap();
    let d = m.get(&vec![0u8; 4]).unwrap();
    assert_eq!(decode(&d.communication_key_text(), KeyKind::CommunicationSecret), Ok(vec![0x10; 32]));
    assert_eq!(decode(&d.member_secret_key_text(), KeyKind::MemberSecret), Ok(vec![0x20; 32]));
    assert_eq!(encrypting_key_from_base32(&d.encrypting_vote_key_text()), Ok(vec![0x40; 33]));
    assert_eq!(
        encrypting_key_from_base32(&d.member_secret_key_text()),
        Err(CodecError::TagMismatch)
    );
}
