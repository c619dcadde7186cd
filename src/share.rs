//! Which proposals of a vote plan call for a decryption share, and how a
//! member's shares are framed into a bundle.
use crate::merge::ShareEntry;
use crate::merge::VotePlanShareBundle;
use crate::merge::entries_view;
use crate::merge::EntryView;
use crate::merge::entry_view;
use crate::merge::ids_unique;
use crate::merge::lemma_pool_distinct;
use crate::merge::pool_bundle;
use crate::merge::pool_entry_into;
use crate::merge::same_bytes;
use vstd::prelude::*;

verus! {

/// The state of a proposal's tally as the vote plan reports it.
#[derive(Clone, Debug, PartialEq, Eq)]
pub enum TallyState {
    /// A public tally: nothing to decrypt.
    Public,
    /// A private tally still encrypted; holds the encrypted tally's bytes.
    PrivateEncrypted(Vec<u8>),
    /// A private tally that has already been decrypted.
    PrivateDecrypted,
}

/// A proposal of a vote plan with its tally, if there is one yet.
#[derive(Clone, Debug, PartialEq, Eq)]
pub struct ProposalTally {
    pub proposal: Vec<u8>,
    pub tally: Option<TallyState>,
}

/// A proposal whose encrypted tally awaits this member's share.
#[derive(Clone, Debug, PartialEq, Eq)]
pub struct EncryptedProposal {
    pub proposal: Vec<u8>,
    pub encrypted_tally: Vec<u8>,
}

/// What computing a share gave for one selected proposal: the share, or
/// `None` where the encrypted tally could not be parsed.
#[derive(Clone, Debug, PartialEq, Eq)]
pub struct ShareOutcome {
    pub proposal: Vec<u8>,
    pub share: Option<Vec<u8>>,
}

/// Why no share or bundle of shares could be made.
#[derive(Clone, Copy, Debug, PartialEq, Eq)]
pub enum ShareError {
    /// An encrypted tally is not a valid ciphertext of the scheme.
    MalformedEncryptedTally,
}

/// The proposals whose tally is private and still encrypted, with that
/// tally, in the order of the vote plan.
pub open spec fn encrypted_of(ps: Seq<ProposalTally>) -> Seq<(Seq<u8>, Seq<u8>)>
    decreases ps.len(),
{
    if ps.len() == 0 {
        Seq::empty()
    } else {
        let front = encrypted_of(ps.drop_last());
        match ps.last().tally {
            Some(TallyState::PrivateEncrypted(t)) => front.push((ps.last().proposal@, t@)),
            _ => front,
        }
    }
}

pub open spec fn is_encrypted(p: ProposalTally) -> bool {
    p.tally matches Some(TallyState::PrivateEncrypted(_))
}

pub open spec fn selected_view(es: Seq<EncryptedProposal>) -> Seq<(Seq<u8>, Seq<u8>)> {
    es.map_values(|e: EncryptedProposal| (e.proposal@, e.encrypted_tally@))
}

/// One entry of a single share for each outcome, in order, where every
/// share is there.
pub open spec fn outcome_entries(os: Seq<ShareOutcome>) -> Seq<EntryView> {
    os.map_values(|o: ShareOutcome| (o.proposal@, seq![o.share->Some_0]))
}

pub open spec fn all_present(os: Seq<ShareOutcome>) -> bool {
    forall|i: int| 0 <= i < os.len() ==> (#[trigger] os[i]).share is Some
}

/// A vote plan none of whose proposals has an encrypted tally calls for no
/// share at all.
pub proof fn lemma_nothing_encrypted(ps: Seq<ProposalTally>)
    requires
        forall|i: int| 0 <= i < ps.len() ==> !is_encrypted(#[trigger] ps[i]),
    ensures
        encrypted_of(ps) == Seq::<(Seq<u8>, Seq<u8>)>::empty(),
    decreases ps.len(),
{
    if ps.len() > 0 {
        let front = ps.drop_last();
        assert forall|i: int| 0 <= i < front.len() implies !is_encrypted(#[trigger] front[i]) by {
            assert(!is_encrypted(ps[i]));
        }
        lemma_nothing_encrypted(front);
        assert(!is_encrypted(ps[ps.len() - 1]));
    }
}

/// The proposals of a vote plan that call for a share from this member:
/// those whose tally is private and still encrypted, in the plan's order.
/// Public and already decrypted tallies, and proposals with no tally, are
/// skipped.
pub fn encrypted_tallies(proposals: &Vec<ProposalTally>) -> (r: Vec<EncryptedProposal>)
    ensures
        selected_view(r@) == encrypted_of(proposals@),
{
    let mut r: Vec<EncryptedProposal> = Vec::new();
    let mut i: usize = 0;
    while i < proposals.len()
        invariant
            0 <= i <= proposals@.len(),
            selected_view(r@) == encrypted_of(proposals@.take(i as int)),
        decreases proposals.len() - i,
    {
        let ghost before = r@;
        assert(proposals@.take(i + 1).drop_last() =~= proposals@.take(i as int));
        match &proposals[i].tally {
            Some(TallyState::PrivateEncrypted(t)) => {
                let e = EncryptedProposal {
                    proposal: proposals[i].proposal.clone(),
                    encrypted_tally: t.clone(),
                };
                r.push(e);
                assert(selected_view(r@) =~= selected_view(before).push(
                    (proposals@[i as int].proposal@, t@),
                ));
            },
            _ => {},
        }
        i = i + 1;
    }
    assert(proposals@.take(i as int) =~= proposals@);
    r
}

/// Frames a member's shares for a vote plan into a bundle, in the order
/// given: each share joins the sequence of its proposal, so a proposal that
/// the plan lists more than once gets one share per listing. Fails as a
/// whole where any encrypted tally was malformed, since a missing share
/// would break the threshold count of that proposal.
pub fn bundle_shares(outcomes: Vec<ShareOutcome>) -> (r: Result<VotePlanShareBundle, ShareError>)
    ensures
        !all_present(outcomes@) ==> r == Err::<VotePlanShareBundle, ShareError>(
            ShareError::MalformedEncryptedTally,
        ),
        all_present(outcomes@) ==> (r matches Ok(b) && b.wf() && b@ == pool_bundle(
            Seq::empty(),
            outcome_entries(outcomes@),
        )),
        all_present(outcomes@) && ids_unique(outcome_entries(outcomes@)) ==> (r matches Ok(b)
            && b@ == outcome_entries(outcomes@)),
{
    let ghost os = outcomes@;
    let mut entries: Vec<ShareEntry> = Vec::new();
    let mut rest = outcomes;
    let ghost mut done: int = 0;
    assert(outcome_entries(os.take(0)) =~= Seq::<EntryView>::empty());
    while rest.len() > 0
        invariant
            os == outcomes@,
            0 <= done <= os.len(),
            rest@ == os.skip(done),
            entries_view(entries@) == pool_bundle(Seq::empty(), outcome_entries(os.take(done))),
            ids_unique(entries_view(entries@)),
            all_present(os.take(done)),
        decreases rest.len(),
    {
        assert(rest@.len() == os.len() - done);
        let o = rest.remove(0);
        assert(o == os[done]);
        match o.share {
            None => {
                assert(os[done].share is None);
                assert(!all_present(os));
                return Err(ShareError::MalformedEncryptedTally);
            },
            Some(share) => {
                let mut shares: Vec<Vec<u8>> = Vec::new();
                shares.push(share);
                let e = ShareEntry { proposal: o.proposal, shares };
                proof {
                    assert(shares@ =~= seq![share]);
                    let next = outcome_entries(os.take(done + 1));
                    assert(next.drop_last() =~= outcome_entries(os.take(done)));
                    assert(os.take(done + 1)[done] == os[done]);
                    assert(next.last() == entry_view(e));
                }
                pool_entry_into(&mut entries, e);
                proof {
                    assert forall|i: int| 0 <= i < done + 1 implies (#[trigger] os.take(
                        done + 1,
                    )[i]).share is Some by {
                        if i < done {
                            assert(os.take(done)[i] == os[i]);
                        }
                    }
                    done = done + 1;
                }
                assert(rest@ =~= os.skip(done));
            },
        }
    }
    assert(os.take(done) =~= os);
    proof {
        if ids_unique(outcome_entries(os)) {
            lemma_pool_distinct(outcome_entries(os));
        }
    }
    Ok(VotePlanShareBundle::from_pooled(entries))
}

/// Which of the vote plans with the given ids to decrypt: the first one
/// whose id is `wanted`, or, where no id is given, the only plan there is.
pub fn pick_vote_plan(ids: &Vec<Vec<u8>>, wanted: &Option<Vec<u8>>) -> (r: Option<usize>)
    ensures
        wanted is None ==> r == if ids@.len() == 1 {
            Some(0usize)
        } else {
            None::<usize>
        },
        wanted matches Some(w) ==> match r {
            Some(i) => i < ids@.len() && ids@[i as int]@ == w@ && forall|j: int|
                0 <= j < i ==> (#[trigger] ids@[j])@ != w@,
            None => forall|j: int| 0 <= j < ids@.len() ==> (#[trigger] ids@[j])@ != w@,
        },
{
    match wanted {
        None => {
            if ids.len() == 1 {
                Some(0)
            } else {
                None
            }
        },
        Some(w) => {
            let mut i: usize = 0;
            while i < ids.len()
                invariant
                    *wanted == Some(*w),
                    0 <= i <= ids@.len(),
                    forall|j: int| 0 <= j < i ==> (#[trigger] ids@[j])@ != w@,
                decreases ids.len() - i,
            {
                let same = same_bytes(&ids[i], w);
                if same {
                    return Some(i);
                }
                i = i + 1;
            }
            None
        },
    }
}

/// What `base64::decode` (standard alphabet) makes of a text: its bytes,
/// or `None` where the text is not valid base64.
pub uninterp spec fn base64_decoding(text: Seq<char>) -> Option<Seq<u8>>;

/// The standard base64 text of some bytes.
pub uninterp spec fn base64_text(bytes: Seq<u8>) -> Seq<char>;

pub open spec fn tally_result(r: Result<Vec<u8>, ShareError>) -> Result<Seq<u8>, ShareError> {
    match r {
        Ok(b) => Ok(b@),
        Err(e) => Err(e),
    }
}

/// Relies on `base64::decode` (standard alphabet, with padding): its
/// outcome depends on the text alone; any error becomes `None`.
#[verifier::external_body]
fn base64_decode(text: &str) -> (r: Option<Vec<u8>>)
    ensures
        r matches Some(b) ==> base64_decoding(text@) == Some(b@),
        r is None ==> base64_decoding(text@) is None,
{
    base64::decode(text).ok()
}

/// Relies on `base64::encode` (standard alphabet, with padding): the text
/// depends on the bytes alone, and `base64::decode` gives the bytes back.
#[verifier::external_body]
fn base64_encode(bytes: &[u8]) -> (r: String)
    ensures
        r@ == base64_text(bytes@),
        base64_decoding(r@) == Some(bytes@),
{
    base64::encode(bytes)
}

/// The bytes of an encrypted tally from its base64 transport text; a text
/// that is not base64 is a malformed tally.
pub fn decode_encrypted_tally(text: &str) -> (r: Result<Vec<u8>, ShareError>)
    ensures
        tally_result(r) == match base64_decoding(text@) {
            Some(b) => Ok(b),
            None => Err(ShareError::MalformedEncryptedTally),
        },
{
    match base64_decode(text) {
        Some(b) => Ok(b),
        None => Err(ShareError::MalformedEncryptedTally),
    }
}

/// A decryption share read back from its base64 transport text; `None`
/// where the text is not base64.
pub fn share_from_text(text: &str) -> (r: Option<Vec<u8>>)
    ensures
        r matches Some(b) ==> base64_decoding(text@) == Some(b@),
        r is None ==> base64_decoding(text@) is None,
{
    base64_decode(text)
}

/// The base64 transport text of a decryption share; `share_from_text`
/// reads it back.
pub fn share_text(share: &[u8]) -> (r: String)
    ensures
        r@ == base64_text(share@),
        base64_decoding(r@) == Some(share@),
{
    base64_encode(share)
}

/// The text of the share computed for one encrypted tally, or a malformed
/// tally where the tally could not be parsed and so gave no share.
pub fn share_for_tally(share: Option<Vec<u8>>) -> (r: Result<String, ShareError>)
    ensures
        share is None ==> r == Err::<String, ShareError>(ShareError::MalformedEncryptedTally),
        share matches Some(b) ==> (r matches Ok(t) && t@ == base64_text(b@) && base64_decoding(t@)
            == Some(b@)),
{
    match share {
        Some(b) => Ok(share_text(b.as_slice())),
        None => Err(ShareError::MalformedEncryptedTally),
    }
}

} // verus!
