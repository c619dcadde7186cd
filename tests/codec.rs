use vote_tally::codec::{decode, encode, CodecError, KeyKind, MEMBER_SK_HRP};

#[test]
fn member_secret_key_round_trips() {
    let raw: Vec<u8> = (0u8..32).collect();
    let text = encode(KeyKind::MemberSecret, &raw);
    assert_eq!(decode(&text, KeyKind::MemberSecret), Ok(raw));
}

#[test]
fn every_kind_round_trips() {
    let raw = vec![0xffu8, 0x00, 0x10, 0x7f, 0x80];
    for kind in [KeyKind::CommunicationSecret, KeyKind::MemberSecret, KeyKind::EncryptingPublic] {
        let text = encode(kind, &raw);
        assert_eq!(decode(&text, kind), Ok(raw.clone()));
    }
}

#[test]
fn empty_key_round_trips() {
    let text = encode(KeyKind::EncryptingPublic, &[]);
    assert_eq!(decode(&text, KeyKind::EncryptingPublic), Ok(vec![]));
}

#[test]
fn member_secret_key_is_refused_as_communication_key() {
    let raw = vec![7u8; 32];
    let text = encode(KeyKind::MemberSecret, &raw);
    assert_eq!(decode(&text, KeyKind::CommunicationSecret), Err(CodecError::TagMismatch));
    assert_eq!(decode(&text, KeyKind::EncryptingPublic), Err(CodecError::TagMismatch));
}

#[test]
fn encoded_text_carries_the_tag() {
    let text = encode(KeyKind::MemberSecret, &[1, 2, 3]);
    assert!(text.starts_with(&format!("{}1", MEMBER_SK_HRP)));
    assert_ne!(text.len(), 3);
}

#[test]
fn garbage_is_a_format_error() {
    assert_eq!(decode("not a key", KeyKind::MemberSecret), Err(CodecError::Format));
    assert_eq!(decode("", KeyKind::MemberSecret), Err(CodecError::Format));
}

#[test]
fn corrupted_checksum_is_a_format_error() {
    let mut text = encode(KeyKind::MemberSecret, &[9u8; 32]);
    let last = text.pop().unwrap();
    text.push(if last == 'q' { 'p' } else { 'q' });
    assert_eq!(decode(&text, KeyKind::MemberSecret), Err(CodecError::Format));
}

#[test]
fn tags_are_distinct() {
    assert_ne!(KeyKind::MemberSecret.tag(), KeyKind::CommunicationSecret.tag());
    assert_ne!(KeyKind::MemberSecret.tag(), KeyKind::EncryptingPublic.tag());
    assert_ne!(KeyKind::CommunicationSecret.tag(), KeyKind::EncryptingPublic.tag());
    assert_eq!(KeyKind::MemberSecret.tag(), "p256k1_membersk");
}
