//! Committee key material: checking the roster and threshold of a key
//! generation, and holding the keys each committee identity received.
use crate::codec::CodecError;
use crate::codec::KeyKind;
use crate::codec::bech32_decoding;
use crate::codec::bech32_text;
use crate::codec::bytes_result;
use crate::codec::decode;
use crate::codec::decodes_as;
use crate::codec::encode;
use crate::codec::tag_check;
use crate::codec::tag_of;
use crate::merge::same_bytes;
use vstd::prelude::*;

verus! {

/// Why key generation was refused.
#[derive(Clone, Copy, Debug, PartialEq, Eq)]
pub enum KeyGenError {
    /// The threshold is 0 or larger than the committee.
    InvalidThreshold,
    /// Two members of the roster share an identity.
    DuplicateIdentity,
    /// The key material drawn does not match the roster member for member.
    KeyCountMismatch,
}

/// A threshold that a committee of `members` can meet.
pub open spec fn threshold_valid(members: int, threshold: int) -> bool {
    1 <= threshold <= members
}

/// No identity appears twice in the roster.
pub open spec fn identities_unique(roster: Seq<(String, Vec<u8>)>) -> bool {
    forall|i: int, j: int|
        0 <= i < j < roster.len() ==> #[trigger] roster[i].1@ != #[trigger] roster[j].1@
}

/// The outcome of checking a roster of `roster.len()` members against a
/// threshold.
pub open spec fn roster_check(roster: Seq<(String, Vec<u8>)>, threshold: int) -> Result<
    (),
    KeyGenError,
> {
    if !threshold_valid(roster.len() as int, threshold) {
        Err(KeyGenError::InvalidThreshold)
    } else if !identities_unique(roster) {
        Err(KeyGenError::DuplicateIdentity)
    } else {
        Ok(())
    }
}

/// Checks that the threshold lies between 1 and the committee's size.
pub fn check_threshold(members: usize, threshold: usize) -> (r: Result<(), KeyGenError>)
    ensures
        r is Ok <==> threshold_valid(members as int, threshold as int),
        r matches Err(e) ==> e == KeyGenError::InvalidThreshold,
{
    if threshold == 0 || threshold > members {
        Err(KeyGenError::InvalidThreshold)
    } else {
        Ok(())
    }
}

/// Checks a roster and threshold before any key is drawn: the threshold
/// must lie between 1 and the roster's size, and identities must be unique.
pub fn validate_roster(roster: &Vec<(String, Vec<u8>)>, threshold: usize) -> (r: Result<
    (),
    KeyGenError,
>)
    ensures
        r == roster_check(roster@, threshold as int),
{
    check_threshold(roster.len(), threshold)?;
    let mut j: usize = 0;
    while j < roster.len()
        invariant
            threshold_valid(roster@.len() as int, threshold as int),
            0 <= j <= roster@.len(),
            forall|a: int, b: int|
                0 <= a < b < j ==> #[trigger] roster@[a].1@ != #[trigger] roster@[b].1@,
        decreases roster.len() - j,
    {
        let mut i: usize = 0;
        while i < j
            invariant
                threshold_valid(roster@.len() as int, threshold as int),
                0 <= i <= j < roster@.len(),
                forall|a: int, b: int|
                    0 <= a < b < j ==> #[trigger] roster@[a].1@ != #[trigger] roster@[b].1@,
                forall|a: int| 0 <= a < i ==> #[trigger] roster@[a].1@ != roster@[j as int].1@,
            decreases j - i,
        {
            if same_bytes(&roster[i].1, &roster[j].1) {
                assert(!identities_unique(roster@));
                return Err(KeyGenError::DuplicateIdentity);
            }
            i = i + 1;
        }
        j = j + 1;
    }
    Ok(())
}

/// The key material that the key-generation protocol produced for one
/// participant index.
#[derive(Clone, Debug, PartialEq, Eq)]
pub struct MemberKeys {
    pub communication_key: Vec<u8>,
    pub member_secret_key: Vec<u8>,
    pub member_public_key: Vec<u8>,
    pub election_public_key: Vec<u8>,
}

/// The alias and the four keys of a member, as plain values.
pub type MemberView = (Seq<char>, Seq<u8>, Seq<u8>, Seq<u8>, Seq<u8>);

/// What one committee identity holds: its communication secret key, its
/// secret share of the decryption key, the matching public key, and the
/// public key that ballots for it are encrypted with.
pub struct PrivateVoteCommitteeData {
    alias: String,
    communication_key: Vec<u8>,
    member_secret_key: Vec<u8>,
    member_public_key: Vec<u8>,
    election_public_key: Vec<u8>,
}

impl View for PrivateVoteCommitteeData {
    type V = MemberView;

    closed spec fn view(&self) -> MemberView {
        (
            self.alias@,
            self.communication_key@,
            self.member_secret_key@,
            self.member_public_key@,
            self.election_public_key@,
        )
    }
}

pub open spec fn member_view(alias: Seq<char>, k: MemberKeys) -> MemberView {
    (
        alias,
        k.communication_key@,
        k.member_secret_key@,
        k.member_public_key@,
        k.election_public_key@,
    )
}

impl PrivateVoteCommitteeData {
    pub fn new(
        alias: String,
        communication_key: Vec<u8>,
        member_secret_key: Vec<u8>,
        member_public_key: Vec<u8>,
        election_public_key: Vec<u8>,
    ) -> (r: Self)
        ensures
            r@ == (
                alias@,
                communication_key@,
                member_secret_key@,
                member_public_key@,
                election_public_key@,
            ),
    {
        PrivateVoteCommitteeData {
            alias,
            communication_key,
            member_secret_key,
            member_public_key,
            election_public_key,
        }
    }

    pub fn member_public_key(&self) -> (r: Vec<u8>)
        ensures
            r@ == self@.3,
    {
        self.member_public_key.clone()
    }

    pub fn member_secret_key(&self) -> (r: Vec<u8>)
        ensures
            r@ == self@.2,
    {
        self.member_secret_key.clone()
    }

    pub fn encrypting_vote_key(&self) -> (r: Vec<u8>)
        ensures
            r@ == self@.4,
    {
        self.election_public_key.clone()
    }

    pub fn alias(&self) -> (r: String)
        ensures
            r@ == self@.0,
    {
        self.alias.clone()
    }

    /// The tagged text of the communication secret key.
    pub fn communication_key_text(&self) -> (r: String)
        ensures
            r@ == bech32_text(tag_of(KeyKind::CommunicationSecret), self@.1),
    {
        encode(KeyKind::CommunicationSecret, self.communication_key.as_slice())
    }

    /// The tagged text of the member's secret share.
    pub fn member_secret_key_text(&self) -> (r: String)
        ensures
            r@ == bech32_text(tag_of(KeyKind::MemberSecret), self@.2),
    {
        encode(KeyKind::MemberSecret, self.member_secret_key.as_slice())
    }

    /// The tagged text of the encrypting public key.
    pub fn encrypting_vote_key_text(&self) -> (r: String)
        ensures
            r@ == bech32_text(tag_of(KeyKind::EncryptingPublic), self@.4),
    {
        encode(KeyKind::EncryptingPublic, self.election_public_key.as_slice())
    }
}

/// Reads an encrypting public key back from its tagged text.
pub fn encrypting_key_from_base32(key: &str) -> (r: Result<Vec<u8>, CodecError>)
    ensures
        bytes_result(r) == tag_check(bech32_decoding(key@), KeyKind::EncryptingPublic),
        decodes_as(key@, KeyKind::EncryptingPublic, bytes_result(r)),
{
    decode(key, KeyKind::EncryptingPublic)
}

/// The key material of a whole committee, keyed by identity in roster
/// order.
pub struct PrivateVoteCommitteeDataManager {
    data: Vec<(Vec<u8>, PrivateVoteCommitteeData)>,
}

/// The committee's identities and member views, as plain values.
pub open spec fn committee_view(
    roster: Seq<(String, Vec<u8>)>,
    keys: Seq<MemberKeys>,
) -> Seq<(Seq<u8>, MemberView)> {
    Seq::new(roster.len(), |i: int| (roster[i].1@, member_view(roster[i].0@, keys[i])))
}

impl View for PrivateVoteCommitteeDataManager {
    type V = Seq<(Seq<u8>, MemberView)>;

    closed spec fn view(&self) -> Seq<(Seq<u8>, MemberView)> {
        self.data@.map_values(|e: (Vec<u8>, PrivateVoteCommitteeData)| (e.0@, e.1@))
    }
}

/// No identity appears twice.
pub open spec fn committee_unique(c: Seq<(Seq<u8>, MemberView)>) -> bool {
    forall|i: int, j: int| 0 <= i < j < c.len() ==> #[trigger] c[i].0 != #[trigger] c[j].0
}

/// A roster of unique identities with one set of keys per member gives
/// exactly one entry per identity, in roster order, with no identity twice;
/// members given distinct secret shares keep them distinct.
pub proof fn lemma_one_entry_per_identity(roster: Seq<(String, Vec<u8>)>, keys: Seq<MemberKeys>)
    requires
        identities_unique(roster),
        keys.len() == roster.len(),
    ensures
        committee_view(roster, keys).len() == roster.len(),
        forall|i: int|
            0 <= i < roster.len() ==> (#[trigger] committee_view(roster, keys)[i]).0
                == roster[i].1@,
        committee_unique(committee_view(roster, keys)),
        (forall|i: int, j: int|
            0 <= i < j < keys.len() ==> #[trigger] keys[i].member_secret_key@
                != #[trigger] keys[j].member_secret_key@) ==> forall|i: int, j: int|
            0 <= i < j < roster.len() ==> (#[trigger] committee_view(roster, keys)[i]).1.2
                != (#[trigger] committee_view(roster, keys)[j]).1.2,
{
    let c = committee_view(roster, keys);
    assert forall|a: int, b: int| 0 <= a < b < c.len() implies #[trigger] c[a].0
        != #[trigger] c[b].0 by {
        assert(roster[a].1@ != roster[b].1@);
    }
    if forall|i: int, j: int|
        0 <= i < j < keys.len() ==> #[trigger] keys[i].member_secret_key@
            != #[trigger] keys[j].member_secret_key@ {
        assert forall|i: int, j: int| 0 <= i < j < roster.len() implies (
        #[trigger] c[i]).1.2 != (#[trigger] c[j]).1.2 by {
            assert(keys[i].member_secret_key@ != keys[j].member_secret_key@);
        }
    }
}

impl PrivateVoteCommitteeDataManager {
    pub open spec fn wf(&self) -> bool {
        committee_unique(self@)
    }

    /// Gives each identity of the roster the key material drawn for its
    /// participant index, which is its position in the roster. Refused where
    /// the threshold is not between 1 and the roster's size, where an identity
    /// appears twice, or where `keys` does not hold one entry per member.
    pub fn new(
        committees: Vec<(String, Vec<u8>)>,
        threshold: usize,
        keys: Vec<MemberKeys>,
    ) -> (r: Result<Self, KeyGenError>)
        ensures
            roster_check(committees@, threshold as int) matches Err(e) ==> r == Err::<
                Self,
                KeyGenError,
            >(e),
            roster_check(committees@, threshold as int) is Ok && keys@.len()
                != committees@.len() ==> r == Err::<Self, KeyGenError>(
                KeyGenError::KeyCountMismatch,
            ),
            roster_check(committees@, threshold as int) is Ok && keys@.len() == committees@.len()
                ==> (r matches Ok(m) && m.wf() && m@ == committee_view(committees@, keys@)),
    {
        validate_roster(&committees, threshold)?;
        if keys.len() != committees.len() {
            return Err(KeyGenError::KeyCountMismatch);
        }
        let ghost want = committee_view(committees@, keys@);
        let mut data: Vec<(Vec<u8>, PrivateVoteCommitteeData)> = Vec::new();
        let mut i: usize = 0;
        while i < committees.len()
            invariant
                keys@.len() == committees@.len(),
                0 <= i <= committees@.len(),
                want == committee_view(committees@, keys@),
                data@.len() == i,
                forall|a: int| 0 <= a < i ==> (#[trigger] data@[a]).0@ == want[a].0 && data@[a].1@ == want[a].1,
            decreases committees.len() - i,
        {
            let k = &keys[i];
            let member = PrivateVoteCommitteeData::new(
                committees[i].0.clone(),
                k.communication_key.clone(),
                k.member_secret_key.clone(),
                k.member_public_key.clone(),
                k.election_public_key.clone(),
            );
            data.push((committees[i].1.clone(), member));
            i = i + 1;
        }
        let m = PrivateVoteCommitteeDataManager { data };
        assert(m@ =~= want);
        assert(committee_unique(m@)) by {
            assert forall|a: int, b: int| 0 <= a < b < want.len() implies #[trigger] want[a].0
                != #[trigger] want[b].0 by {
                assert(committees@[a].1@ != committees@[b].1@);
            }
        }
        Ok(m)
    }

    /// The key material of the given identity, if it is a committee member.
    pub fn get(&self, identifier: &Vec<u8>) -> (r: Option<&PrivateVoteCommitteeData>)
        requires
            self.wf(),
        ensures
            r is None <==> forall|i: int| 0 <= i < self@.len() ==> #[trigger] self@[i].0 != identifier@,
            r matches Some(d) ==> exists|i: int|
                0 <= i < self@.len() && #[trigger] self@[i].0 == identifier@ && self@[i].1 == d@,
    {
        let mut i: usize = 0;
        while i < self.data.len()
            invariant
                0 <= i <= self@.len(),
                self@.len() == self.data@.len(),
                forall|a: int| 0 <= a < i ==> #[trigger] self@[a].0 != identifier@,
            decreases self.data.len() - i,
        {
            assert(self@[i as int] == (self.data@[i as int].0@, self.data@[i as int].1@));
            let same = same_bytes(&self.data[i].0, identifier);
            if same {
                assert(self@[i as int].0 == identifier@);
                return Some(&self.data[i].1);
            }
            i = i + 1;
        }
        None
    }

    /// The member public keys, in roster order.
    pub fn member_public_keys(&self) -> (r: Vec<Vec<u8>>)
        ensures
            r@.len() == self@.len(),
            forall|i: int| 0 <= i < r@.len() ==> #[trigger] r@[i]@ == self@[i].1.3,
    {
        let mut r: Vec<Vec<u8>> = Vec::new();
        let mut i: usize = 0;
        while i < self.data.len()
            invariant
                0 <= i <= self@.len(),
                self@.len() == self.data@.len(),
                r@.len() == i,
                forall|a: int| 0 <= a < i ==> #[trigger] r@[a]@ == self@[a].1.3,
            decreases self.data.len() - i,
        {
            assert(self@[i as int] == (self.data@[i as int].0@, self.data@[i as int].1@));
            r.push(self.data[i].1.member_public_key());
            i = i + 1;
        }
        r
    }

    /// The identities and their key material, in roster order.
    pub fn members(&self) -> (r: &Vec<(Vec<u8>, PrivateVoteCommitteeData)>)
        ensures
            r@.len() == self@.len(),
            forall|i: int| 0 <= i < r@.len() ==> (#[trigger] r@[i]).0@ == self@[i].0 && r@[i].1@ == self@[i].1,
    {
        &self.data
    }
}

} // verus!
