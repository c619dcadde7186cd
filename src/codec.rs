//! Tagged text form of key material: a bech32 string whose human-readable
//! part names the kind of key it holds.
use bech32::FromBase32;
use bech32::ToBase32;
use vstd::prelude::*;

verus! {

/// Tag of a member's communication secret key.
pub const COMMUNICATION_SK_HRP: &'static str = "p256k1_vcommsk";

/// Tag of a member's secret share of the tally decryption key.
pub const MEMBER_SK_HRP: &'static str = "p256k1_membersk";

/// Tag of an encrypting (election) public key.
pub const ENCRYPTING_VOTE_PK_HRP: &'static str = "p256k1_votepk";

/// The kinds of key material that have a text form; no kind is accepted
/// where another is expected.
#[derive(Clone, Copy, Debug, PartialEq, Eq)]
pub enum KeyKind {
    CommunicationSecret,
    MemberSecret,
    EncryptingPublic,
}

/// Why a text could not be read back as key material.
#[derive(Clone, Copy, Debug, PartialEq, Eq)]
pub enum CodecError {
    /// The text is not a well-formed tagged encoding.
    Format,
    /// The text is well formed but tagged for another kind of key.
    TagMismatch,
}

/// The bech32 text that `bech32::encode` makes of a tag and the base32 form
/// of some bytes.
pub uninterp spec fn bech32_text(tag: Seq<char>, payload: Seq<u8>) -> Seq<char>;

/// What `bech32::decode` followed by `Vec::<u8>::from_base32` makes of a
/// text: its tag and bytes, or `None` where either call fails.
pub uninterp spec fn bech32_decoding(text: Seq<char>) -> Option<(Seq<char>, Seq<u8>)>;

/// A tag of 1 to 83 lowercase ASCII letters, digits and underscores: one
/// that bech32 accepts and hands back unchanged.
pub open spec fn tag_is_plain(tag: Seq<char>) -> bool {
    &&& 1 <= tag.len() <= 83
    &&& forall|i: int|
        0 <= i < tag.len() ==> {
            let c = #[trigger] tag[i];
            ('a' <= c && c <= 'z') || ('0' <= c && c <= '9') || c == '_'
        }
}

pub open spec fn tag_of(kind: KeyKind) -> Seq<char> {
    match kind {
        KeyKind::CommunicationSecret => COMMUNICATION_SK_HRP@,
        KeyKind::MemberSecret => MEMBER_SK_HRP@,
        KeyKind::EncryptingPublic => ENCRYPTING_VOTE_PK_HRP@,
    }
}

pub open spec fn bytes_result(r: Result<Vec<u8>, CodecError>) -> Result<Seq<u8>, CodecError> {
    match r {
        Ok(b) => Ok(b@),
        Err(e) => Err(e),
    }
}

/// What reading back a text that was encoded from `tag` and `payload` gives
/// when `expected` is the kind asked for.
pub open spec fn read_back(tag: Seq<char>, payload: Seq<u8>, expected: KeyKind) -> Result<
    Seq<u8>,
    CodecError,
> {
    if tag == tag_of(expected) {
        Ok(payload)
    } else {
        Err(CodecError::TagMismatch)
    }
}

/// The contract of `decode`: every plain tag and payload whose encoding is
/// `text` are read back as `read_back` says.
pub open spec fn decodes_as(text: Seq<char>, expected: KeyKind, r: Result<Seq<u8>, CodecError>) -> bool {
    forall|tag: Seq<char>, payload: Seq<u8>|
        #![trigger bech32_text(tag, payload)]
        bech32_text(tag, payload) == text && tag_is_plain(tag) ==> r == read_back(
            tag,
            payload,
            expected,
        )
}

/// What `check_tag` makes of the outcome of bech32 decoding.
pub open spec fn tag_check(decoded: Option<(Seq<char>, Seq<u8>)>, expected: KeyKind) -> Result<
    Seq<u8>,
    CodecError,
> {
    match decoded {
        None => Err(CodecError::Format),
        Some((tag, payload)) => read_back(tag, payload, expected),
    }
}

pub open spec fn decoded_view(d: Option<(String, Vec<u8>)>) -> Option<(Seq<char>, Seq<u8>)> {
    match d {
        None => None,
        Some((t, p)) => Some((t@, p@)),
    }
}

/// Relies on `bech32::encode` of the `ToBase32` form of the bytes: a tag of
/// lowercase letters, digits and '_' of 1 to 83 characters is accepted
/// (`check_hrp`), and the text depends on the tag and the bytes alone.
#[verifier::external_body]
fn bech32_encode(tag: &str, payload: &[u8]) -> (r: Option<String>)
    ensures
        tag_is_plain(tag@) ==> r is Some,
        r matches Some(s) ==> s@ == bech32_text(tag@, payload@),
{
    bech32::encode(tag, payload.to_base32()).ok()
}

/// Relies on `bech32::decode` followed by `Vec::<u8>::from_base32`, the
/// reciprocals of `encode` and `to_base32`: a text that `bech32_encode` made
/// from a plain tag and some bytes decodes to that tag and those bytes.
/// Any error of either call becomes `None`; the outcome depends on the
/// text alone.
#[verifier::external_body]
fn bech32_decode(text: &str) -> (r: Option<(String, Vec<u8>)>)
    ensures
        decoded_view(r) == bech32_decoding(text@),
        forall|tag: Seq<char>, payload: Seq<u8>|
            #![trigger bech32_text(tag, payload)]
            bech32_text(tag, payload) == text@ && tag_is_plain(tag) ==> decoded_view(r) == Some(
                (tag, payload),
            ),
{
    match bech32::decode(text) {
        Ok((tag, data)) => match Vec::<u8>::from_base32(&data) {
            Ok(payload) => Some((tag, payload)),
            Err(_) => None,
        },
        Err(_) => None,
    }
}

/// The three tags are plain and pairwise different.
pub proof fn lemma_tags_plain_and_distinct()
    ensures
        forall|k: KeyKind| tag_is_plain(#[trigger] tag_of(k)),
        forall|a: KeyKind, b: KeyKind| a != b ==> #[trigger] tag_of(a) != #[trigger] tag_of(b),
{
    reveal_strlit("p256k1_vcommsk");
    reveal_strlit("p256k1_membersk");
    reveal_strlit("p256k1_votepk");
    assert(tag_of(KeyKind::CommunicationSecret)[7] != tag_of(KeyKind::MemberSecret)[7]);
    assert(tag_of(KeyKind::CommunicationSecret)[8] != tag_of(KeyKind::EncryptingPublic)[8]);
    assert(tag_of(KeyKind::MemberSecret)[7] != tag_of(KeyKind::EncryptingPublic)[7]);
}

impl KeyKind {
    /// The tag that marks text of this kind.
    pub fn tag(self) -> (r: &'static str)
        ensures
            r@ == tag_of(self),
    {
        match self {
            KeyKind::CommunicationSecret => COMMUNICATION_SK_HRP,
            KeyKind::MemberSecret => MEMBER_SK_HRP,
            KeyKind::EncryptingPublic => ENCRYPTING_VOTE_PK_HRP,
        }
    }
}

/// The text form of `raw` as key material of the given kind.
pub fn encode(kind: KeyKind, raw: &[u8]) -> (r: String)
    ensures
        r@ == bech32_text(tag_of(kind), raw@),
{
    proof {
        lemma_tags_plain_and_distinct();
    }
    match bech32_encode(kind.tag(), raw) {
        Some(text) => text,
        None => String::new(),
    }
}

/// Accepts the outcome of bech32 decoding only where its tag is the one of
/// the expected kind.
pub fn check_tag(decoded: Option<(String, Vec<u8>)>, expected: KeyKind) -> (r: Result<
    Vec<u8>,
    CodecError,
>)
    ensures
        bytes_result(r) == tag_check(decoded_view(decoded), expected),
{
    match decoded {
        None => Err(CodecError::Format),
        Some((tag, payload)) => {
            let wanted = expected.tag().to_owned();
            if tag == wanted {
                Ok(payload)
            } else {
                Err(CodecError::TagMismatch)
            }
        },
    }
}

/// Reads back key material of the expected kind from its text form: a
/// text that does not decode is a format error, one tagged for another kind
/// a tag mismatch.
pub fn decode(text: &str, expected: KeyKind) -> (r: Result<Vec<u8>, CodecError>)
    ensures
        bytes_result(r) == tag_check(bech32_decoding(text@), expected),
        decodes_as(text@, expected, bytes_result(r)),
{
    let decoded = bech32_decode(text);
    let ghost d = decoded_view(decoded);
    let r = check_tag(decoded, expected);
    assert forall|tag: Seq<char>, payload: Seq<u8>|
        #![trigger bech32_text(tag, payload)]
        bech32_text(tag, payload) == text@ && tag_is_plain(tag) implies bytes_result(r)
        == read_back(tag, payload, expected) by {
        assert(d == Some((tag, payload)));
    }
    r
}

/// Key material encoded as one kind reads back to the same bytes when that
/// kind is expected, and is refused with a tag mismatch when any other kind
/// is expected.
pub proof fn lemma_tag_integrity(
    kind: KeyKind,
    expected: KeyKind,
    raw: Seq<u8>,
    r: Result<Seq<u8>, CodecError>,
)
    requires
        decodes_as(bech32_text(tag_of(kind), raw), expected, r),
    ensures
        kind == expected ==> r == Ok::<Seq<u8>, CodecError>(raw),
        kind != expected ==> r == Err::<Seq<u8>, CodecError>(CodecError::TagMismatch),
{
    lemma_tags_plain_and_distinct();
    assert(tag_is_plain(tag_of(kind)));
    assert(r == read_back(tag_of(kind), raw, expected));
    if kind != expected {
        assert(tag_of(kind) != tag_of(expected));
    }
}

} // verus!
