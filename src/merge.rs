//! Pooling of the decryption shares that committee members contribute for
//! the proposals of one vote plan.
use vstd::prelude::*;

verus! {

/// The shares given for one proposal, in the order they are to be used.
#[derive(Debug, PartialEq, Eq)]
pub struct ShareEntry {
    pub proposal: Vec<u8>,
    pub shares: Vec<Vec<u8>>,
}

/// A proposal's identity and its shares, as plain values.
pub type EntryView = (Seq<u8>, Seq<Vec<u8>>);

pub open spec fn entry_view(e: ShareEntry) -> EntryView {
    (e.proposal@, e.shares@)
}

pub open spec fn entries_view(es: Seq<ShareEntry>) -> Seq<EntryView> {
    es.map_values(|e: ShareEntry| entry_view(e))
}

/// No proposal appears twice.
pub open spec fn ids_unique(es: Seq<EntryView>) -> bool {
    forall|i: int, j: int| 0 <= i < j < es.len() ==> #[trigger] es[i].0 != #[trigger] es[j].0
}

pub open spec fn has_id(es: Seq<EntryView>, id: Seq<u8>) -> bool {
    exists|k: int| 0 <= k < es.len() && #[trigger] es[k].0 == id
}

/// The shares listed for `id`, or none where it is absent.
pub open spec fn shares_for(es: Seq<EntryView>, id: Seq<u8>) -> Seq<Vec<u8>> {
    if has_id(es, id) {
        es[choose|k: int| 0 <= k < es.len() && #[trigger] es[k].0 == id].1
    } else {
        Seq::empty()
    }
}

/// Adds one entry to a pool: its shares go after those already held for
/// its proposal, or it becomes a new last entry.
pub open spec fn pool_entry(acc: Seq<EntryView>, e: EntryView) -> Seq<EntryView> {
    if has_id(acc, e.0) {
        let k = choose|k: int| 0 <= k < acc.len() && #[trigger] acc[k].0 == e.0;
        acc.update(k, (e.0, acc[k].1 + e.1))
    } else {
        acc.push(e)
    }
}

/// Adds the entries of one bundle to a pool, in their order.
pub open spec fn pool_bundle(acc: Seq<EntryView>, b: Seq<EntryView>) -> Seq<EntryView>
    decreases b.len(),
{
    if b.len() == 0 {
        acc
    } else {
        pool_entry(pool_bundle(acc, b.drop_last()), b.last())
    }
}

/// The pool of a sequence of bundles, taken in order.
pub open spec fn merged(bs: Seq<Seq<EntryView>>) -> Seq<EntryView>
    decreases bs.len(),
{
    if bs.len() == 0 {
        Seq::empty()
    } else {
        pool_bundle(merged(bs.drop_last()), bs.last())
    }
}

/// The shares that the bundles give for `id`, one bundle after another.
pub open spec fn pooled(bs: Seq<Seq<EntryView>>, id: Seq<u8>) -> Seq<Vec<u8>>
    decreases bs.len(),
{
    if bs.len() == 0 {
        Seq::empty()
    } else {
        pooled(bs.drop_last(), id) + shares_for(bs.last(), id)
    }
}

/// Why a set of bundles could not be merged.
#[derive(Clone, Copy, Debug, PartialEq, Eq)]
pub enum MergeError {
    /// A bundle is not validly structured: it lists a proposal twice.
    Deserialization,
}

/// The shares that one committee member contributes for the proposals of a
/// vote plan, keyed by proposal.
#[derive(Debug, PartialEq, Eq)]
pub struct VotePlanShareBundle {
    entries: Vec<ShareEntry>,
}

/// The shares of several members pooled per proposal.
#[derive(Debug, PartialEq, Eq)]
pub struct MergedVotePlanShares {
    entries: Vec<ShareEntry>,
}

pub open spec fn bundles_view(bs: Seq<VotePlanShareBundle>) -> Seq<Seq<EntryView>> {
    bs.map_values(|b: VotePlanShareBundle| b@)
}

impl View for VotePlanShareBundle {
    type V = Seq<EntryView>;

    closed spec fn view(&self) -> Seq<EntryView> {
        entries_view(self.entries@)
    }
}

impl View for MergedVotePlanShares {
    type V = Seq<EntryView>;

    closed spec fn view(&self) -> Seq<EntryView> {
        entries_view(self.entries@)
    }
}

/// Whether two byte strings are equal.
pub fn same_bytes(a: &Vec<u8>, b: &Vec<u8>) -> (r: bool)
    ensures
        r == (a@ == b@),
{
    if a.len() != b.len() {
        return false;
    }
    let mut i: usize = 0;
    while i < a.len()
        invariant
            a@.len() == b@.len(),
            0 <= i <= a@.len(),
            a@.subrange(0, i as int) == b@.subrange(0, i as int),
        decreases a.len() - i,
    {
        if a[i] != b[i] {
            assert(a@[i as int] != b@[i as int]);
            return false;
        }
        assert(a@.subrange(0, i + 1) == a@.subrange(0, i as int).push(a@[i as int]));
        assert(b@.subrange(0, i + 1) == b@.subrange(0, i as int).push(b@[i as int]));
        i = i + 1;
    }
    assert(a@ == a@.subrange(0, a@.len() as int));
    assert(b@ == b@.subrange(0, b@.len() as int));
    true
}

/// Whether some proposal is listed twice.
fn has_duplicate(es: &Vec<ShareEntry>) -> (r: bool)
    ensures
        r == !ids_unique(entries_view(es@)),
{
    let ghost v = entries_view(es@);
    let mut j: usize = 0;
    while j < es.len()
        invariant
            v == entries_view(es@),
            0 <= j <= es@.len(),
            forall|a: int, b: int| 0 <= a < b < j ==> #[trigger] v[a].0 != #[trigger] v[b].0,
        decreases es.len() - j,
    {
        let mut i: usize = 0;
        while i < j
            invariant
                v == entries_view(es@),
                0 <= i <= j < es@.len(),
                forall|a: int, b: int| 0 <= a < b < j ==> #[trigger] v[a].0 != #[trigger] v[b].0,
                forall|a: int| 0 <= a < i ==> #[trigger] v[a].0 != v[j as int].0,
            decreases j - i,
        {
            if same_bytes(&es[i].proposal, &es[j].proposal) {
                assert(v[i as int].0 == v[j as int].0);
                return true;
            }
            i = i + 1;
        }
        j = j + 1;
    }
    false
}

impl VotePlanShareBundle {
    pub open spec fn wf(&self) -> bool {
        ids_unique(self@)
    }

    /// A bundle of the given entries; refused where a proposal is listed
    /// twice.
    pub fn from_entries(entries: Vec<ShareEntry>) -> (r: Result<VotePlanShareBundle, MergeError>)
        ensures
            ids_unique(entries_view(entries@)) <==> r is Ok,
            r matches Ok(b) ==> b.wf() && b@ == entries_view(entries@),
            r matches Err(e) ==> e == MergeError::Deserialization,
    {
        if has_duplicate(&entries) {
            Err(MergeError::Deserialization)
        } else {
            Ok(VotePlanShareBundle { entries })
        }
    }

    /// A bundle of entries already known to list each proposal once.
    pub(crate) fn from_pooled(entries: Vec<ShareEntry>) -> (r: VotePlanShareBundle)
        requires
            ids_unique(entries_view(entries@)),
        ensures
            r.wf(),
            r@ == entries_view(entries@),
    {
        VotePlanShareBundle { entries }
    }

    /// The entries, in their order.
    pub fn entries(&self) -> (r: &Vec<ShareEntry>)
        ensures
            entries_view(r@) == self@,
    {
        &self.entries
    }
}

impl MergedVotePlanShares {
    pub open spec fn wf(&self) -> bool {
        ids_unique(self@)
    }

    /// The pooled entries, in the order their proposals first appeared.
    pub fn entries(&self) -> (r: &Vec<ShareEntry>)
        ensures
            entries_view(r@) == self@,
    {
        &self.entries
    }
}

/// `shares_for` of an entry list with unique ids is the shares of the entry
/// that carries the id.
proof fn lemma_shares_at(es: Seq<EntryView>, k: int)
    requires
        ids_unique(es),
        0 <= k < es.len(),
    ensures
        shares_for(es, es[k].0) == es[k].1,
{
    assert(has_id(es, es[k].0));
    let c = choose|c: int| 0 <= c < es.len() && #[trigger] es[c].0 == es[k].0;
    if c != k {
        if c < k {
            assert(es[c].0 != es[k].0);
        } else {
            assert(es[k].0 != es[c].0);
        }
    }
}

/// Pooling one entry keeps ids unique and appends its shares to its
/// proposal's.
proof fn lemma_pool_entry(acc: Seq<EntryView>, e: EntryView)
    requires
        ids_unique(acc),
    ensures
        ids_unique(pool_entry(acc, e)),
        forall|id: Seq<u8>|
            #[trigger] shares_for(pool_entry(acc, e), id) == if id == e.0 {
                shares_for(acc, id) + e.1
            } else {
                shares_for(acc, id)
            },
        forall|id: Seq<u8>|
            #[trigger] has_id(pool_entry(acc, e), id) == (has_id(acc, id) || id == e.0),
{
    let r = pool_entry(acc, e);
    if has_id(acc, e.0) {
        let k = choose|k: int| 0 <= k < acc.len() && #[trigger] acc[k].0 == e.0;
        assert forall|i: int, j: int| 0 <= i < j < r.len() implies #[trigger] r[i].0
            != #[trigger] r[j].0 by {
            assert(acc[i].0 != acc[j].0);
        }
        assert forall|id: Seq<u8>| #[trigger]
            has_id(r, id) == (has_id(acc, id) || id == e.0) by {
            if has_id(acc, id) {
                let c = choose|c: int| 0 <= c < acc.len() && #[trigger] acc[c].0 == id;
                assert(r[c].0 == id);
            }
            if has_id(r, id) {
                let c = choose|c: int| 0 <= c < r.len() && #[trigger] r[c].0 == id;
                assert(acc[c].0 == id);
            }
        }
        assert forall|id: Seq<u8>| #[trigger]
            shares_for(r, id) == if id == e.0 {
                shares_for(acc, id) + e.1
            } else {
                shares_for(acc, id)
            } by {
            if has_id(acc, id) {
                let c = choose|c: int| 0 <= c < acc.len() && #[trigger] acc[c].0 == id;
                lemma_shares_at(acc, c);
                lemma_shares_at(r, c);
                lemma_shares_at(acc, k);
            } else {
                assert(!has_id(r, id));
            }
        }
    } else {
        assert forall|i: int, j: int| 0 <= i < j < r.len() implies #[trigger] r[i].0
            != #[trigger] r[j].0 by {
            if j == acc.len() {
                assert(acc[i].0 != e.0);
            } else {
                assert(acc[i].0 != acc[j].0);
            }
        }
        assert forall|id: Seq<u8>| #[trigger]
            has_id(r, id) == (has_id(acc, id) || id == e.0) by {
            if has_id(acc, id) {
                let c = choose|c: int| 0 <= c < acc.len() && #[trigger] acc[c].0 == id;
                assert(r[c].0 == id);
            }
            if id == e.0 {
                assert(r[acc.len() as int].0 == id);
            }
            if has_id(r, id) {
                let c = choose|c: int| 0 <= c < r.len() && #[trigger] r[c].0 == id;
                if c < acc.len() {
                    assert(acc[c].0 == id);
                }
            }
        }
        assert forall|id: Seq<u8>| #[trigger]
            shares_for(r, id) == if id == e.0 {
                shares_for(acc, id) + e.1
            } else {
                shares_for(acc, id)
            } by {
            if has_id(acc, id) {
                let c = choose|c: int| 0 <= c < acc.len() && #[trigger] acc[c].0 == id;
                lemma_shares_at(acc, c);
                lemma_shares_at(r, c);
            } else if id == e.0 {
                lemma_shares_at(r, acc.len() as int);
                assert(shares_for(acc, id) + e.1 =~= e.1);
            } else {
                assert(!has_id(r, id));
            }
        }
    }
}

/// Pooling a bundle whose proposals are unique appends, for each proposal,
/// the bundle's shares to those already pooled.
proof fn lemma_pool_bundle(acc: Seq<EntryView>, b: Seq<EntryView>)
    requires
        ids_unique(acc),
        ids_unique(b),
    ensures
        ids_unique(pool_bundle(acc, b)),
        forall|id: Seq<u8>|
            #[trigger] shares_for(pool_bundle(acc, b), id) == shares_for(acc, id) + shares_for(
                b,
                id,
            ),
    decreases b.len(),
{
    if b.len() == 0 {
        assert forall|id: Seq<u8>| #[trigger]
            shares_for(pool_bundle(acc, b), id) == shares_for(acc, id) + shares_for(b, id) by {
            assert(!has_id(b, id));
            assert(shares_for(acc, id) + shares_for(b, id) =~= shares_for(acc, id));
        }
    } else {
        let front = b.drop_last();
        let e = b.last();
        assert(ids_unique(front)) by {
            assert forall|i: int, j: int| 0 <= i < j < front.len() implies #[trigger] front[i].0
                != #[trigger] front[j].0 by {
                assert(b[i].0 != b[j].0);
            }
        }
        lemma_pool_bundle(acc, front);
        let mid = pool_bundle(acc, front);
        lemma_pool_entry(mid, e);
        assert forall|id: Seq<u8>| #[trigger]
            shares_for(pool_bundle(acc, b), id) == shares_for(acc, id) + shares_for(b, id) by {
            assert(shares_for(mid, id) == shares_for(acc, id) + shares_for(front, id));
            if id == e.0 {
                lemma_shares_at(b, b.len() - 1);
                assert(!has_id(front, id)) by {
                    if has_id(front, id) {
                        let c = choose|c: int| 0 <= c < front.len() && #[trigger] front[c].0 == id;
                        assert(b[c].0 != b[b.len() - 1].0);
                    }
                }
                assert(shares_for(acc, id) + shares_for(front, id) =~= shares_for(acc, id));
            } else {
                if has_id(b, id) {
                    let c = choose|c: int| 0 <= c < b.len() && #[trigger] b[c].0 == id;
                    lemma_shares_at(b, c);
                    assert(front[c].0 == id);
                    lemma_shares_at(front, c);
                } else {
                    assert(!has_id(front, id)) by {
                        if has_id(front, id) {
                            let c = choose|c: int|
                                0 <= c < front.len() && #[trigger] front[c].0 == id;
                            assert(b[c].0 == id);
                        }
                    }
                }
            }
        }
    }
}

/// Pooling entries that list each proposal once, starting from nothing,
/// gives those entries unchanged.
pub proof fn lemma_pool_distinct(es: Seq<EntryView>)
    requires
        ids_unique(es),
    ensures
        pool_bundle(Seq::empty(), es) == es,
    decreases es.len(),
{
    if es.len() > 0 {
        let front = es.drop_last();
        assert(ids_unique(front)) by {
            assert forall|i: int, j: int| 0 <= i < j < front.len() implies #[trigger] front[i].0
                != #[trigger] front[j].0 by {
                assert(es[i].0 != es[j].0);
            }
        }
        lemma_pool_distinct(front);
        assert(!has_id(front, es.last().0)) by {
            if has_id(front, es.last().0) {
                let c = choose|c: int| 0 <= c < front.len() && #[trigger] front[c].0 == es.last().0;
                assert(es[c].0 != es[es.len() - 1].0);
            }
        }
        assert(front.push(es.last()) =~= es);
    }
}

/// Merging bundles whose proposals are each listed once gives, for every
/// proposal, the shares of the bundles that hold it, concatenated in the
/// order the bundles were supplied; and no proposal is listed twice in the
/// result.
pub proof fn lemma_merge_pools(bs: Seq<Seq<EntryView>>)
    requires
        forall|i: int| 0 <= i < bs.len() ==> ids_unique(#[trigger] bs[i]),
    ensures
        ids_unique(merged(bs)),
        forall|id: Seq<u8>| #[trigger] shares_for(merged(bs), id) == pooled(bs, id),
    decreases bs.len(),
{
    if bs.len() == 0 {
    } else {
        let front = bs.drop_last();
        assert forall|i: int| 0 <= i < front.len() implies ids_unique(#[trigger] front[i]) by {
            assert(ids_unique(bs[i]));
        }
        lemma_merge_pools(front);
        assert(ids_unique(bs[bs.len() - 1]));
        lemma_pool_bundle(merged(front), bs.last());
    }
}

/// Where each bundle gives at most one share for a proposal, the pool holds
/// at most one share per bundle for it.
pub proof fn lemma_pool_bounded(bs: Seq<Seq<EntryView>>, id: Seq<u8>)
    requires
        forall|i: int| 0 <= i < bs.len() ==> ids_unique(#[trigger] bs[i]),
        forall|i: int| 0 <= i < bs.len() ==> (#[trigger] shares_for(bs[i], id)).len() <= 1,
    ensures
        shares_for(merged(bs), id).len() <= bs.len(),
{
    lemma_merge_pools(bs);
    lemma_pooled_len(bs, id);
}

proof fn lemma_pooled_len(bs: Seq<Seq<EntryView>>, id: Seq<u8>)
    requires
        forall|i: int| 0 <= i < bs.len() ==> (#[trigger] shares_for(bs[i], id)).len() <= 1,
    ensures
        pooled(bs, id).len() <= bs.len(),
    decreases bs.len(),
{
    if bs.len() > 0 {
        let front = bs.drop_last();
        assert forall|i: int| 0 <= i < front.len() implies (#[trigger] shares_for(front[i], id)).len() <= 1 by {
            assert(front[i] == bs[i]);
        }
        lemma_pooled_len(front, id);
        assert(shares_for(bs[bs.len() - 1], id).len() <= 1);
    }
}

/// Pools one entry into `acc`.
pub(crate) fn pool_entry_into(acc: &mut Vec<ShareEntry>, e: ShareEntry)
    requires
        ids_unique(entries_view(old(acc)@)),
    ensures
        entries_view(final(acc)@) == pool_entry(entries_view(old(acc)@), entry_view(e)),
        ids_unique(entries_view(final(acc)@)),
{
    proof {
        lemma_pool_entry(entries_view(acc@), entry_view(e));
    }
    let ghost v = entries_view(acc@);
    let ghost ev = entry_view(e);
    let mut k: usize = 0;
    while k < acc.len()
        invariant
            v == entries_view(acc@),
            v == entries_view(old(acc)@),
            ev == entry_view(e),
            ids_unique(v),
            0 <= k <= acc@.len(),
            forall|a: int| 0 <= a < k ==> #[trigger] v[a].0 != ev.0,
        decreases acc.len() - k,
    {
        assert(v[k as int] == entry_view(acc@[k as int]));
        let same = same_bytes(&acc[k].proposal, &e.proposal);
        if same {
            proof {
                assert(v[k as int].0 == ev.0);
                assert(has_id(v, ev.0));
                let c = choose|c: int| 0 <= c < v.len() && #[trigger] v[c].0 == ev.0;
                if c != k as int {
                    if c < k as int {
                        assert(v[c].0 != ev.0);
                    } else {
                        assert(v[k as int].0 != v[c].0);
                    }
                }
            }
            let mut entry = acc.remove(k);
            let mut more = e.shares;
            entry.shares.append(&mut more);
            acc.insert(k, entry);
            assert(entries_view(acc@) =~= v.update(k as int, (ev.0, v[k as int].1 + ev.1)));
            return;
        }
        k = k + 1;
    }
    assert(!has_id(v, ev.0));
    acc.push(e);
    assert(entries_view(acc@) =~= v.push(ev));
}

/// Pools the shares of the bundles: for each proposal that any bundle
/// lists, the shares of each bundle that lists it, in the order the bundles
/// are given. Proposals keep the order in which they first appear.
pub fn merge(bundles: Vec<VotePlanShareBundle>) -> (r: MergedVotePlanShares)
    requires
        forall|i: int| 0 <= i < bundles@.len() ==> (#[trigger] bundles@[i]).wf(),
    ensures
        r.wf(),
        r@ == merged(bundles_view(bundles@)),
{
    let ghost all = bundles_view(bundles@);
    proof {
        lemma_merge_pools(all);
    }
    let mut acc: Vec<ShareEntry> = Vec::new();
    let mut rest = bundles;
    let ghost mut done: int = 0;
    assert(entries_view(acc@) =~= merged(all.take(0)));
    while rest.len() > 0
        invariant
            0 <= done <= all.len(),
            bundles_view(rest@) == all.skip(done),
            entries_view(acc@) == merged(all.take(done)),
            forall|i: int| 0 <= i < all.len() ==> ids_unique(#[trigger] all[i]),
        decreases rest.len(),
    {
        proof {
            lemma_merge_pools(all.take(done));
        }
        assert(bundles_view(rest@).len() == rest@.len());
        assert(bundles_view(rest@)[0] == all[done]);
        let ghost rest_before = rest@;
        let b = rest.remove(0);
        let ghost bv = b@;
        assert(bv == all[done]);
        let ghost start = entries_view(acc@);
        let mut es = b.entries;
        let ghost mut j: int = 0;
        while es.len() > 0
            invariant
                0 <= j <= bv.len(),
                entries_view(es@) == bv.skip(j),
                entries_view(acc@) == pool_bundle(start, bv.take(j)),
                ids_unique(entries_view(acc@)),
            decreases es.len(),
        {
            assert(entries_view(es@).len() == es@.len());
            assert(entries_view(es@)[0] == bv[j]);
            let ghost es_before = es@;
            let e = es.remove(0);
            assert(entry_view(e) == bv[j]);
            proof {
                lemma_pool_entry(entries_view(acc@), entry_view(e));
            }
            pool_entry_into(&mut acc, e);
            proof {
                assert(bv.take(j + 1).drop_last() =~= bv.take(j));
                j = j + 1;
            }
            assert forall|i: int| 0 <= i < es@.len() implies #[trigger] entries_view(es@)[i]
                == bv.skip(j)[i] by {
                assert(es@[i] == es_before[i + 1]);
                assert(entries_view(es_before)[i + 1] == bv.skip(j - 1)[i + 1]);
            }
            assert(entries_view(es@) =~= bv.skip(j));
        }
        assert(bv.take(j) =~= bv);
        proof {
            assert(all.take(done + 1).drop_last() =~= all.take(done));
            done = done + 1;
        }
        assert forall|i: int| 0 <= i < rest@.len() implies #[trigger] bundles_view(rest@)[i]
            == all.skip(done)[i] by {
            assert(rest@[i] == rest_before[i + 1]);
            assert(bundles_view(rest_before)[i + 1] == all.skip(done - 1)[i + 1]);
        }
        assert(bundles_view(rest@) =~= all.skip(done));
    }
    assert(all.take(done) =~= all);
    MergedVotePlanShares { entries: acc }
}

} // verus!
