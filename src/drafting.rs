//! The draft workflow on the ledger: draft groups are opened, filled with
//! drafts, funded by one transfer, and their drafts turned into lockups (or,
//! for a discarded group, deleted). Batches apply as a whole or not at all.

use crate::draft::{Draft, DraftGroup, DraftGroupIndex, DraftIndex, draft_ok, draft_total};
use crate::error::LockupError;
use crate::ledger::{Contract, add_draft_total, group_sum, listed_in};
use crate::lockup::{LockupIndex, LockupModel, lockup_of};
use crate::{AccountId, Balance};
use vstd::prelude::*;

verus! {

broadcast use vstd::std_specs::hash::group_hash_axioms;

proof fn lemma_group_sum_empty(drafts: Map<DraftIndex, Draft>)
    ensures
        group_sum(Set::empty(), drafts) == 0,
{
    vstd::set::fold::lemma_fold_empty(0int, add_draft_total(drafts));
}

proof fn lemma_group_sum_insert(ids: Set<DraftIndex>, drafts: Map<DraftIndex, Draft>, id: DraftIndex)
    requires
        ids.finite(),
        !ids.contains(id),
    ensures
        group_sum(ids.insert(id), drafts) == group_sum(ids, drafts) + draft_total(drafts[id]@),
{
    let f = add_draft_total(drafts);
    assert(vstd::set::fold::is_fun_commutative(f));
    vstd::set::fold::lemma_fold_insert(ids, 0int, f, id);
}

proof fn lemma_group_sum_remove(ids: Set<DraftIndex>, drafts: Map<DraftIndex, Draft>, id: DraftIndex)
    requires
        ids.finite(),
        ids.contains(id),
    ensures
        group_sum(ids.remove(id), drafts) == group_sum(ids, drafts) - draft_total(drafts[id]@),
{
    let rest = ids.remove(id);
    assert(rest.insert(id) =~= ids);
    lemma_group_sum_insert(rest, drafts, id);
}

proof fn lemma_group_sum_nonneg(ids: Set<DraftIndex>, drafts: Map<DraftIndex, Draft>)
    requires
        ids.finite(),
    ensures
        group_sum(ids, drafts) >= 0,
    decreases ids.len(),
{
    if ids.len() == 0 {
        assert(ids =~= Set::empty());
        lemma_group_sum_empty(drafts);
    } else {
        let a = ids.choose();
        lemma_group_sum_remove(ids, drafts, a);
        lemma_group_sum_nonneg(ids.remove(a), drafts);
    }
}

/// The sum depends only on the balances of the drafts in `ids`.
proof fn lemma_group_sum_congruent(
    ids: Set<DraftIndex>,
    m1: Map<DraftIndex, Draft>,
    m2: Map<DraftIndex, Draft>,
)
    requires
        ids.finite(),
        forall|id: DraftIndex| #[trigger] ids.contains(id) ==> draft_total(m1[id]@) == draft_total(m2[id]@),
    ensures
        group_sum(ids, m1) == group_sum(ids, m2),
    decreases ids.len(),
{
    if ids.len() == 0 {
        assert(ids =~= Set::empty());
        lemma_group_sum_empty(m1);
        lemma_group_sum_empty(m2);
    } else {
        let a = ids.choose();
        lemma_group_sum_congruent(ids.remove(a), m1, m2);
        lemma_group_sum_remove(ids, m1, a);
        lemma_group_sum_remove(ids, m2, a);
    }
}

/// Sum of the balances of the drafts of `ds` (before position `k`) that go
/// to group `g`.
pub open spec fn batch_added(ds: Seq<Draft>, g: DraftGroupIndex, k: int) -> int
    decreases k,
{
    if k <= 0 {
        0
    } else {
        batch_added(ds, g, k - 1) + if ds[k - 1].draft_group_id == g {
            draft_total(ds[k - 1]@)
        } else {
            0
        }
    }
}

impl Contract {
    /// Opens a new empty draft group under the next group index.
    pub fn create_draft_group(&mut self, caller: &AccountId) -> (r: Result<DraftGroupIndex, LockupError>)
        requires
            old(self).wf(),
        ensures
            final(self).wf(),
            r is Err ==> *final(self) == *old(self),
            r is Ok <==> old(self).is_draft_operator(caller@) && old(self).next_draft_group_id
                < u32::MAX,
            !old(self).is_draft_operator(caller@) ==> r == Err::<DraftGroupIndex, LockupError>(
                LockupError::NotAuthorized,
            ),
            r is Ok ==> {
                let id = r->Ok_0;
                &&& id == old(self).next_draft_group_id
                &&& final(self).next_draft_group_id == id + 1
                &&& final(self).draft_groups@ == old(self).draft_groups@.insert(
                    id,
                    final(self).draft_groups@[id],
                )
                &&& final(self).draft_groups@[id]@.total_amount == 0
                &&& final(self).draft_groups@[id]@.payer_id is None
                &&& final(self).draft_groups@[id]@.draft_indices.is_empty()
                &&& !final(self).draft_groups@[id]@.discarded
                &&& final(self).drafts@ == old(self).drafts@
                &&& final(self).lockups@ == old(self).lockups@
            },
    {
        if let Err(e) = self.check_draft_operator(caller) {
            return Err(e);
        }
        if self.next_draft_group_id == u32::MAX {
            return Err(LockupError::ArithmeticOverflow);
        }
        let index = self.next_draft_group_id;
        self.next_draft_group_id = index + 1;
        self.draft_groups.insert(index, DraftGroup::new());
        proof {
            lemma_group_sum_empty(self.drafts@);
            assert(self.group_wf(index));
        }
        Ok(index)
    }

    /// Adds one draft to its group; the caller has checked that it may.
    fn add_draft(&mut self, draft: Draft) -> (r: DraftIndex)
        requires
            old(self).wf(),
            draft_ok(draft@),
            old(self).draft_groups@.contains_key(draft.draft_group_id),
            !old(self).draft_groups@[draft.draft_group_id]@.discarded,
            old(self).draft_groups@[draft.draft_group_id]@.payer_id is None,
            old(self).draft_groups@[draft.draft_group_id]@.total_amount + draft_total(draft@)
                <= u128::MAX,
            old(self).next_draft_id < u32::MAX,
        ensures
            final(self).wf(),
            r == old(self).next_draft_id,
            final(self).next_draft_id == r + 1,
            final(self).drafts@ == old(self).drafts@.insert(r, draft),
            final(self).draft_groups@.dom() == old(self).draft_groups@.dom(),
            forall|g: DraftGroupIndex|
                #[trigger] final(self).draft_groups@.contains_key(g) && g != draft.draft_group_id
                    ==> final(self).draft_groups@[g] == old(self).draft_groups@[g],
            final(self).draft_groups@[draft.draft_group_id]@.total_amount == old(self).draft_groups@[draft.draft_group_id]@.total_amount + draft_total(draft@),
            final(self).draft_groups@[draft.draft_group_id]@.draft_indices == old(self).draft_groups@[draft.draft_group_id]@.draft_indices.insert(r),
            final(self).draft_groups@[draft.draft_group_id]@.payer_id is None,
            !final(self).draft_groups@[draft.draft_group_id]@.discarded,
            final(self).lockups@ == old(self).lockups@,
            final(self).account_lockups@ == old(self).account_lockups@,
            final(self).next_draft_group_id == old(self).next_draft_group_id,
            final(self).deposit_whitelist@ == old(self).deposit_whitelist@,
            final(self).draft_operators_whitelist@ == old(self).draft_operators_whitelist@,
    {
        let ghost pre = *self;
        let id = self.next_draft_id;
        let gid = draft.draft_group_id;
        let amount = draft.total_balance();
        let mut group = match self.draft_groups.remove(&gid) {
            Some(g) => g,
            None => {
                assert(false);
                return id;
            },
        };
        assert(!pre.drafts@.contains_key(id));
        assert(!group@.draft_indices.contains(id));
        group.total_amount = group.total_amount + amount;
        group.draft_indices.insert(id);
        self.draft_groups.insert(gid, group);
        self.drafts.insert(id, draft);
        self.next_draft_id = id + 1;
        proof {
            let drafts = self.drafts@;
            let old_ids = pre.draft_groups@[gid]@.draft_indices;
            lemma_group_sum_congruent(old_ids, pre.drafts@, drafts);
            lemma_group_sum_insert(old_ids, drafts, id);
            assert forall|g: DraftGroupIndex| #[trigger] self.draft_groups@.contains_key(g) implies self.group_wf(g) by {
                if g != gid {
                    assert(pre.group_wf(g));
                    let ids = pre.draft_groups@[g]@.draft_indices;
                    assert(!ids.contains(id));
                    lemma_group_sum_congruent(ids, pre.drafts@, drafts);
                }
            }
            assert forall|d: DraftIndex| #[trigger] self.drafts@.contains_key(d) implies self.draft_wf(d) by {
                if d != id {
                    assert(pre.draft_wf(d));
                }
            }
        }
        id
    }
}

proof fn lemma_batch_added_monotonic(ds: Seq<Draft>, g: DraftGroupIndex, a: int, b: int)
    requires
        a <= b,
    ensures
        batch_added(ds, g, a) <= batch_added(ds, g, b),
    decreases b - a,
{
    if a < b {
        lemma_batch_added_monotonic(ds, g, a, b - 1);
        if b - 1 >= 0 {
            assert(draft_total(ds[b - 1]@) >= 0);
        }
    }
}

/// Every draft of the batch may be added: its group exists and takes
/// drafts, the draft is valid, and no group total would pass the largest
/// balance.
pub open spec fn batch_can_add(c: Contract, ds: Seq<Draft>) -> bool {
    &&& c.next_draft_id + ds.len() <= u32::MAX
    &&& forall|k: int|
        0 <= k < ds.len() ==> {
            let g = #[trigger] ds[k].draft_group_id;
            &&& c.draft_groups@.contains_key(g)
            &&& !c.draft_groups@[g]@.discarded
            &&& c.draft_groups@[g]@.payer_id is None
            &&& draft_ok(ds[k]@)
            &&& c.draft_groups@[g]@.total_amount + batch_added(ds, g, k + 1) <= u128::MAX
        }
}

/// The indices that a batch `ds` of drafts, numbered from `first`, gives to
/// the drafts of its first `k` entries that go to group `g`.
pub open spec fn new_ids_of(ds: Seq<Draft>, g: DraftGroupIndex, first: int, k: int) -> Set<DraftIndex> {
    Set::new(|d: DraftIndex| first <= d < first + k && ds[d - first].draft_group_id == g)
}

impl Contract {
    /// Creates a batch of drafts at once: either all of them are added, under
    /// consecutive draft indices, or none is.
    pub fn create_drafts(&mut self, caller: &AccountId, drafts: Vec<Draft>) -> (r: Result<
        Vec<DraftIndex>,
        LockupError,
    >)
        requires
            old(self).wf(),
        ensures
            final(self).wf(),
            r is Err ==> *final(self) == *old(self),
            r is Ok <==> old(self).is_draft_operator(caller@) && batch_can_add(*old(self), drafts@),
            !old(self).is_draft_operator(caller@) ==> r == Err::<Vec<DraftIndex>, LockupError>(
                LockupError::NotAuthorized,
            ),
            r is Ok ==> {
                let ids = r->Ok_0@;
                let first = old(self).next_draft_id as int;
                &&& ids.len() == drafts@.len()
                &&& forall|k: int| 0 <= k < ids.len() ==> #[trigger] ids[k] == first + k
                &&& final(self).next_draft_id == first + drafts@.len()
                &&& forall|k: int|
                    0 <= k < drafts@.len() ==> #[trigger] final(self).drafts@[(first + k) as DraftIndex]@
                        == drafts@[k]@
                &&& forall|d: DraftIndex|
                    #[trigger] final(self).drafts@.contains_key(d) <==> old(self).drafts@.contains_key(d)
                        || (first <= d < first + drafts@.len())
                &&& final(self).draft_groups@.dom() == old(self).draft_groups@.dom()
                &&& forall|d: DraftIndex|
                    #[trigger] old(self).drafts@.contains_key(d) ==> final(self).drafts@[d]
                        == old(self).drafts@[d]
                &&& forall|g: DraftGroupIndex|
                    #[trigger] final(self).draft_groups@.contains_key(g) ==> {
                        &&& final(self).draft_groups@[g]@.total_amount
                            == old(self).draft_groups@[g]@.total_amount + batch_added(
                            drafts@,
                            g,
                            drafts@.len() as int,
                        )
                        &&& final(self).draft_groups@[g]@.draft_indices
                            == old(self).draft_groups@[g]@.draft_indices.union(
                            new_ids_of(drafts@, g, first, drafts@.len() as int),
                        )
                        &&& final(self).draft_groups@[g]@.payer_id
                            == old(self).draft_groups@[g]@.payer_id
                        &&& final(self).draft_groups@[g]@.discarded
                            == old(self).draft_groups@[g]@.discarded
                    }
                &&& final(self).lockups@ == old(self).lockups@
            },
    {
        if let Err(e) = self.check_draft_operator(caller) {
            return Err(e);
        }
        let n = drafts.len();
        if n > (u32::MAX - self.next_draft_id) as usize {
            return Err(LockupError::ArithmeticOverflow);
        }
        let ds = &drafts;
        // Check the whole batch before changing anything.
        let mut k: usize = 0;
        while k < n
            invariant
                n == ds@.len(),
                ds@ == drafts@,
                self.wf(),
                *self == *old(self),
                self.is_draft_operator(caller@),
                k <= n,
                self.next_draft_id + n <= u32::MAX,
                forall|j: int|
                    0 <= j < k ==> {
                        let g = #[trigger] ds@[j].draft_group_id;
                        &&& self.draft_groups@.contains_key(g)
                        &&& !self.draft_groups@[g]@.discarded
                        &&& self.draft_groups@[g]@.payer_id is None
                        &&& draft_ok(ds@[j]@)
                        &&& self.draft_groups@[g]@.total_amount + batch_added(ds@, g, j + 1)
                            <= u128::MAX
                    },
            decreases n - k,
        {
            let draft = &ds[k];
            let gid = draft.draft_group_id;
            let group = match self.draft_groups.get(&gid) {
                Some(g) => g,
                None => {
                    return Err(LockupError::DraftGroupNotFound);
                },
            };
            if let Err(e) = group.assert_can_add_draft() {
                return Err(e);
            }
            if let Err(e) = draft.assert_new_valid() {
                return Err(e);
            }
            let mut acc: Balance = group.total_amount;
            let mut j: usize = 0;
            while j <= k
                invariant
                    n == ds@.len(),
                    ds@ == drafts@,
                    *self == *old(self),
                    self.wf(),
                    self.is_draft_operator(caller@),
                    self.draft_groups@.contains_key(gid),
                    self.draft_groups@[gid] == *group,
                    j <= k + 1,
                    k < n,
                    gid == ds@[k as int].draft_group_id,
                    forall|i: int| 0 <= i < k ==> draft_ok(#[trigger] ds@[i]@),
                    draft_ok(ds@[k as int]@),
                    acc == group@.total_amount + batch_added(ds@, gid, j as int),
                decreases k + 1 - j,
            {
                if ds[j].draft_group_id == gid {
                    let amount = ds[j].total_balance();
                    acc = match acc.checked_add(amount) {
                        Some(a) => a,
                        None => {
                            proof {
                                lemma_batch_added_monotonic(ds@, gid, j + 1, k + 1);
                                assert(batch_added(ds@, gid, j + 1) == batch_added(ds@, gid, j as int)
                                    + draft_total(ds@[j as int]@));
                                let kk = k as int;
                                assert(ds@[kk].draft_group_id == gid);
                                assert(!(self.draft_groups@[gid]@.total_amount + batch_added(
                                    ds@,
                                    gid,
                                    kk + 1,
                                ) <= u128::MAX));
                            }
                            return Err(LockupError::ArithmeticOverflow);
                        },
                    };
                }
                j = j + 1;
            }
            k = k + 1;
        }
        // Apply it.
        let ghost pre = *self;
        let first = self.next_draft_id;
        let mut ids: Vec<DraftIndex> = Vec::new();
        let mut k: usize = 0;
        while k < n
            invariant
                n == ds@.len(),
                ds@ == drafts@,
                k <= n,
                self.wf(),
                pre.wf(),
                batch_can_add(pre, ds@),
                first == pre.next_draft_id,
                self.next_draft_id == first + k,
                ids@.len() == k,
                forall|i: int| 0 <= i < k ==> #[trigger] ids@[i] == first + i,
                forall|i: int|
                    0 <= i < k ==> #[trigger] self.drafts@[(first + i) as DraftIndex]@ == ds@[i]@,
                forall|d: DraftIndex|
                    #[trigger] self.drafts@.contains_key(d) <==> pre.drafts@.contains_key(d) || (first
                        <= d < first + k),
                forall|d: DraftIndex|
                    #[trigger] pre.drafts@.contains_key(d) ==> self.drafts@[d] == pre.drafts@[d],
                self.draft_groups@.dom() == pre.draft_groups@.dom(),
                forall|g: DraftGroupIndex|
                    #[trigger] self.draft_groups@.contains_key(g) ==> {
                        &&& self.draft_groups@[g]@.total_amount == pre.draft_groups@[g]@.total_amount
                            + batch_added(ds@, g, k as int)
                        &&& self.draft_groups@[g]@.draft_indices
                            == pre.draft_groups@[g]@.draft_indices.union(
                            new_ids_of(ds@, g, first as int, k as int),
                        )
                        &&& self.draft_groups@[g]@.discarded == pre.draft_groups@[g]@.discarded
                        &&& self.draft_groups@[g]@.payer_id == pre.draft_groups@[g]@.payer_id
                    },
                self.lockups@ == pre.lockups@,
                self.account_lockups@ == pre.account_lockups@,
                self.next_draft_group_id == pre.next_draft_group_id,
                self.deposit_whitelist@ == pre.deposit_whitelist@,
                self.draft_operators_whitelist@ == pre.draft_operators_whitelist@,
            decreases n - k,
        {
            let draft = ds[k].clone();
            let ghost g = ds@[k as int].draft_group_id;
            assert(ds@[k as int].draft_group_id == g);
            let ghost before = *self;
            let id = self.add_draft(draft);
            ids.push(id);
            proof {
                assert forall|h: DraftGroupIndex| #[trigger] self.draft_groups@.contains_key(h) implies {
                    &&& self.draft_groups@[h]@.total_amount == pre.draft_groups@[h]@.total_amount
                        + batch_added(ds@, h, k + 1)
                    &&& self.draft_groups@[h]@.draft_indices
                        == pre.draft_groups@[h]@.draft_indices.union(
                        new_ids_of(ds@, h, first as int, k + 1),
                    )
                    &&& self.draft_groups@[h]@.discarded == pre.draft_groups@[h]@.discarded
                    &&& self.draft_groups@[h]@.payer_id == pre.draft_groups@[h]@.payer_id
                } by {
                    let before_ids = new_ids_of(ds@, h, first as int, k as int);
                    let after_ids = new_ids_of(ds@, h, first as int, k + 1);
                    if h != g {
                        assert(self.draft_groups@[h] == before.draft_groups@[h]);
                        assert(after_ids =~= before_ids);
                    } else {
                        assert(after_ids =~= before_ids.insert(id));
                        assert(self.draft_groups@[h]@.draft_indices =~= pre.draft_groups@[h]@.draft_indices.union(
                            after_ids,
                        ));
                    }
                }
                assert forall|d: DraftIndex| #[trigger] pre.drafts@.contains_key(d) implies self.drafts@[d]
                    == pre.drafts@[d] by {
                    assert(pre.draft_wf(d));
                }
                assert forall|i: int| 0 <= i < k + 1 implies #[trigger] self.drafts@[(first + i) as DraftIndex]@ == ds@[i]@ by {
                    if i < k {
                        assert(before.drafts@[(first + i) as DraftIndex]@ == ds@[i]@);
                    }
                }
            }
            k = k + 1;
        }
        Ok(ids)
    }
}

/// Every draft of the batch exists once in it, its group is funded and not
/// discarded, and the ledger has room for the new lockups.
pub open spec fn batch_can_convert(c: Contract, ids: Seq<DraftIndex>) -> bool {
    &&& c.lockups@.len() + ids.len() <= u32::MAX
    &&& forall|k: int|
        0 <= k < ids.len() ==> {
            let d = #[trigger] ids[k];
            &&& c.drafts@.contains_key(d)
            &&& c.draft_groups@[c.drafts@[d].draft_group_id]@.payer_id is Some
            &&& !c.draft_groups@[c.drafts@[d].draft_group_id]@.discarded
            &&& forall|j: int| 0 <= j < k ==> ids[j] != d
        }
}

/// Every draft of the batch exists once in it, and its group is discarded
/// and was never funded.
pub open spec fn batch_can_delete(c: Contract, ids: Seq<DraftIndex>) -> bool {
    forall|k: int|
        0 <= k < ids.len() ==> {
            let d = #[trigger] ids[k];
            &&& c.drafts@.contains_key(d)
            &&& c.draft_groups@[c.drafts@[d].draft_group_id]@.discarded
            &&& c.draft_groups@[c.drafts@[d].draft_group_id]@.payer_id is None
            &&& forall|j: int| 0 <= j < k ==> ids[j] != d
        }
}

/// The lockup that draft `d` of `c` becomes: paid for by its group's payer.
pub open spec fn converted(c: Contract, d: DraftIndex) -> LockupModel {
    let draft = c.drafts@[d];
    lockup_of(
        draft@.lockup_create,
        c.draft_groups@[draft.draft_group_id]@.payer_id.unwrap(),
    )
}

/// The drafts of group `g` of `c` that are not among `ids`.
pub open spec fn remaining_ids(c: Contract, g: DraftGroupIndex, ids: Seq<DraftIndex>) -> Set<
    DraftIndex,
> {
    c.draft_groups@[g]@.draft_indices.filter(|d: DraftIndex| !ids.contains(d))
}

/// Some draft of group `g` of `c` is among `ids`.
pub open spec fn touched(c: Contract, g: DraftGroupIndex, ids: Seq<DraftIndex>) -> bool {
    exists|d: DraftIndex| #[trigger] c.draft_groups@[g]@.draft_indices.contains(d) && ids.contains(d)
}

/// `after` is `before` with the drafts `ids` taken out: the other drafts are
/// as they were, each group keeps its drafts that are not among `ids`, a
/// group that lost drafts is gone when it has none left, and a group that
/// had none of `ids` is unchanged.
pub open spec fn drafts_removed(before: Contract, after: Contract, ids: Seq<DraftIndex>) -> bool {
    &&& forall|d: DraftIndex|
        #[trigger] after.drafts@.contains_key(d) ==> before.drafts@.contains_key(d)
            && after.drafts@[d] == before.drafts@[d]
    &&& forall|g: DraftGroupIndex|
        #![trigger after.draft_groups@.contains_key(g)]
        #![trigger before.draft_groups@.contains_key(g)]
        after.draft_groups@.contains_key(g) <==> before.draft_groups@.contains_key(g) && !(touched(
            before,
            g,
            ids,
        ) && remaining_ids(before, g, ids).is_empty())
    &&& forall|g: DraftGroupIndex|
        #[trigger] after.draft_groups@.contains_key(g) ==> {
            &&& after.draft_groups@[g]@.draft_indices == remaining_ids(before, g, ids)
            &&& after.draft_groups@[g]@.payer_id == before.draft_groups@[g]@.payer_id
            &&& after.draft_groups@[g]@.discarded == before.draft_groups@[g]@.discarded
        }
    &&& forall|g: DraftGroupIndex|
        #[trigger] after.draft_groups@.contains_key(g) && !touched(before, g, ids)
            ==> after.draft_groups@[g] == before.draft_groups@[g]
}

/// Taking out no drafts changes nothing.
proof fn lemma_drafts_removed_none(c: Contract)
    ensures
        drafts_removed(c, c, seq![]),
{
    let none: Seq<DraftIndex> = seq![];
    assert forall|g: DraftGroupIndex| #[trigger] c.draft_groups@.contains_key(g) implies remaining_ids(
        c,
        g,
        none,
    ) =~= c.draft_groups@[g]@.draft_indices by {}
}

/// Taking out the drafts `ids` and then draft `id` takes out `ids` with `id`.
proof fn lemma_drafts_removed_push(
    pre: Contract,
    mid: Contract,
    post: Contract,
    ids: Seq<DraftIndex>,
    id: DraftIndex,
)
    requires
        drafts_removed(pre, mid, ids),
        drafts_removed(mid, post, seq![id]),
    ensures
        drafts_removed(pre, post, ids.push(id)),
{
    let s1 = ids.push(id);
    let one = seq![id];
    assert forall|d: DraftIndex| s1.contains(d) <==> ids.contains(d) || d == id by {
        if s1.contains(d) {
            let j = choose|j: int| 0 <= j < s1.len() && s1[j] == d;
            if j < ids.len() {
                assert(ids[j] == d);
            }
        }
        if ids.contains(d) {
            let j = choose|j: int| 0 <= j < ids.len() && ids[j] == d;
            assert(s1[j] == d);
        }
        if d == id {
            assert(s1[ids.len() as int] == d);
        }
    }
    assert forall|d: DraftIndex| one.contains(d) <==> d == id by {
        if d == id {
            assert(one[0] == d);
        }
    }
    assert forall|g: DraftGroupIndex| mid.draft_groups@.contains_key(g) implies remaining_ids(
        mid,
        g,
        one,
    ) =~= remaining_ids(pre, g, s1) by {}
    assert forall|g: DraftGroupIndex|
        #![trigger post.draft_groups@.contains_key(g)]
        #![trigger pre.draft_groups@.contains_key(g)]
        post.draft_groups@.contains_key(g) <==> pre.draft_groups@.contains_key(g) && !(touched(
            pre,
            g,
            s1,
        ) && remaining_ids(pre, g, s1).is_empty()) by {
        let r0 = remaining_ids(pre, g, ids);
        let r1 = remaining_ids(pre, g, s1);
        if pre.draft_groups@.contains_key(g) {
            if mid.draft_groups@.contains_key(g) {
                if touched(mid, g, one) {
                    let d = choose|d: DraftIndex| #[trigger] mid.draft_groups@[g]@.draft_indices.contains(d)
                        && one.contains(d);
                    assert(pre.draft_groups@[g]@.draft_indices.contains(d) && s1.contains(d));
                }
                if touched(pre, g, s1) && !touched(mid, g, one) {
                    assert(r1 =~= r0);
                    if r0.is_empty() {
                        if !touched(pre, g, ids) {
                            let d = choose|d: DraftIndex| #[trigger] pre.draft_groups@[g]@.draft_indices.contains(d)
                                && s1.contains(d);
                            assert(r0.contains(d));
                        }
                    }
                }
                if !touched(pre, g, s1) && touched(mid, g, one) {
                    let d = choose|d: DraftIndex| #[trigger] mid.draft_groups@[g]@.draft_indices.contains(d)
                        && one.contains(d);
                    assert(pre.draft_groups@[g]@.draft_indices.contains(d));
                }
            } else {
                assert(touched(pre, g, ids) && r0.is_empty());
                let d = choose|d: DraftIndex| #[trigger] pre.draft_groups@[g]@.draft_indices.contains(d)
                    && ids.contains(d);
                assert(s1.contains(d));
                assert forall|x: DraftIndex| !r1.contains(x) by {
                    assert(!r0.contains(x));
                }
                assert(r1 =~= Set::empty());
            }
        }
    }
    assert forall|g: DraftGroupIndex|
        #[trigger] post.draft_groups@.contains_key(g) && !touched(pre, g, s1) implies post.draft_groups@[g]
        == pre.draft_groups@[g] by {
        assert(mid.draft_groups@.contains_key(g));
        assert(pre.draft_groups@.contains_key(g));
        if touched(pre, g, ids) {
            let d = choose|d: DraftIndex| #[trigger] pre.draft_groups@[g]@.draft_indices.contains(d)
                && ids.contains(d);
            assert(s1.contains(d));
            assert(touched(pre, g, s1));
        }
        assert(mid.draft_groups@[g] == pre.draft_groups@[g]);
        if touched(mid, g, one) {
            let d = choose|d: DraftIndex| #[trigger] mid.draft_groups@[g]@.draft_indices.contains(d)
                && one.contains(d);
            assert(s1.contains(d));
            assert(pre.draft_groups@[g]@.draft_indices.contains(d));
            assert(touched(pre, g, s1));
        }
    }
}

impl Contract {
    /// Takes draft `draft_id` out of the ledger and out of its group, which
    /// is dropped when it has no drafts left. Returns the draft with its
    /// group's payer.
    fn take_draft(&mut self, draft_id: DraftIndex) -> (r: (Draft, Option<AccountId>))
        requires
            old(self).wf(),
            old(self).drafts@.contains_key(draft_id),
        ensures
            final(self).wf(),
            drafts_removed(*old(self), *final(self), seq![draft_id]),
            r.0@ == old(self).drafts@[draft_id]@,
            draft_ok(r.0@),
            ({
                let g = old(self).drafts@[draft_id].draft_group_id;
                let old_group = old(self).draft_groups@[g]@;
                &&& r.1 is Some <==> old_group.payer_id is Some
                &&& r.1 is Some ==> r.1->Some_0@ == old_group.payer_id.unwrap()
                &&& final(self).drafts@ == old(self).drafts@.remove(draft_id)
                &&& (final(self).draft_groups@.contains_key(g) <==> old_group.draft_indices.remove(
                    draft_id,
                ).len() > 0)
                &&& final(self).draft_groups@.dom() =~= (if old_group.draft_indices.remove(
                    draft_id,
                ).len() > 0 {
                    old(self).draft_groups@.dom()
                } else {
                    old(self).draft_groups@.dom().remove(g)
                })
                &&& final(self).draft_groups@.contains_key(g) ==> {
                    &&& final(self).draft_groups@[g]@.draft_indices == old_group.draft_indices.remove(
                        draft_id,
                    )
                    &&& final(self).draft_groups@[g]@.total_amount == old_group.total_amount
                        - draft_total(r.0@)
                    &&& final(self).draft_groups@[g]@.payer_id == old_group.payer_id
                    &&& final(self).draft_groups@[g]@.discarded == old_group.discarded
                }
                &&& forall|h: DraftGroupIndex|
                    #[trigger] final(self).draft_groups@.contains_key(h) && h != g
                        ==> final(self).draft_groups@[h] == old(self).draft_groups@[h]
            }),
            final(self).lockups == old(self).lockups,
            final(self).account_lockups == old(self).account_lockups,
            final(self).next_draft_id == old(self).next_draft_id,
            final(self).next_draft_group_id == old(self).next_draft_group_id,
            final(self).deposit_whitelist == old(self).deposit_whitelist,
            final(self).draft_operators_whitelist == old(self).draft_operators_whitelist,
            final(self).token_account_id == old(self).token_account_id,
    {
        let ghost pre = *self;
        assert(pre.draft_wf(draft_id));
        let draft = match self.drafts.remove(&draft_id) {
            Some(d) => d,
            None => {
                assert(false);
                return (self.drafts.remove(&draft_id).unwrap(), None);
            },
        };
        let gid = draft.draft_group_id;
        assert(pre.group_wf(gid));
        let mut group = match self.draft_groups.remove(&gid) {
            Some(g) => g,
            None => {
                assert(false);
                return (draft, None);
            },
        };
        let ghost old_ids = group@.draft_indices;
        group.draft_indices.remove(&draft_id);
        let amount = draft.total_balance();
        proof {
            lemma_group_sum_remove(old_ids, pre.drafts@, draft_id);
            lemma_group_sum_nonneg(old_ids.remove(draft_id), pre.drafts@);
            lemma_group_sum_congruent(old_ids.remove(draft_id), pre.drafts@, self.drafts@);
        }
        group.total_amount = group.total_amount - amount;
        let payer = match &group.payer_id {
            Some(p) => Some(p.clone()),
            None => None,
        };
        let ghost new_ids = group@.draft_indices;
        proof {
            vstd::set_lib::lemma_set_empty_equivalency_len(new_ids);
        }
        if !group.draft_indices.is_empty() {
            self.draft_groups.insert(gid, group);
        } else {
            assert forall|d: DraftIndex| #[trigger] self.drafts@.contains_key(d) implies self.drafts@[d].draft_group_id != gid by {
                assert(pre.draft_wf(d));
            }
        }
        proof {
            assert forall|g: DraftGroupIndex| #[trigger] self.draft_groups@.contains_key(g) implies self.group_wf(g) by {
                if g != gid {
                    assert(pre.group_wf(g));
                    let ids = pre.draft_groups@[g]@.draft_indices;
                    assert(!ids.contains(draft_id));
                    lemma_group_sum_congruent(ids, pre.drafts@, self.drafts@);
                }
            }
            assert forall|d: DraftIndex| #[trigger] self.drafts@.contains_key(d) implies self.draft_wf(d) by {
                assert(pre.draft_wf(d));
            }
            let one = seq![draft_id];
            assert forall|d: DraftIndex| one.contains(d) <==> d == draft_id by {
                if d == draft_id {
                    assert(one[0] == d);
                }
            }
            assert(remaining_ids(pre, gid, one) =~= new_ids);
            assert forall|h: DraftGroupIndex| pre.draft_groups@.contains_key(h) && h != gid implies remaining_ids(
                pre,
                h,
                one,
            ) =~= pre.draft_groups@[h]@.draft_indices by {
                assert(pre.group_wf(h));
            }
            assert(touched(pre, gid, one)) by {
                assert(pre.draft_groups@[gid]@.draft_indices.contains(draft_id) && one.contains(draft_id));
            }
            assert forall|h: DraftGroupIndex| pre.draft_groups@.contains_key(h) && h != gid implies !touched(pre, h, one) by {
                if touched(pre, h, one) {
                    let d = choose|d: DraftIndex| #[trigger] pre.draft_groups@[h]@.draft_indices.contains(d)
                        && one.contains(d);
                    assert(pre.group_wf(h));
                }
            }
            assert(new_ids.is_empty() <==> new_ids.len() == 0);
            assert forall|h: DraftGroupIndex|
                #![trigger self.draft_groups@.contains_key(h)]
                #![trigger pre.draft_groups@.contains_key(h)]
                self.draft_groups@.contains_key(h) <==> pre.draft_groups@.contains_key(h) && !(touched(
                    pre,
                    h,
                    one,
                ) && remaining_ids(pre, h, one).is_empty()) by {}
            assert forall|h: DraftGroupIndex|
                #[trigger] self.draft_groups@.contains_key(h) && !touched(pre, h, one)
                    implies self.draft_groups@[h] == pre.draft_groups@[h] by {}
        }
        (draft, payer)
    }

    /// Turns a batch of drafts of funded groups into lockups, paid for by
    /// each group's payer: either all of them, under consecutive lockup
    /// indices, or none.
    pub fn convert_drafts(&mut self, draft_ids: Vec<DraftIndex>) -> (r: Result<
        Vec<LockupIndex>,
        LockupError,
    >)
        requires
            old(self).wf(),
        ensures
            final(self).wf(),
            r is Err ==> *final(self) == *old(self),
            r is Ok <==> batch_can_convert(*old(self), draft_ids@),
            r is Ok ==> {
                let ids = r->Ok_0@;
                let first = old(self).lockups@.len() as int;
                &&& ids.len() == draft_ids@.len()
                &&& final(self).lockups@.len() == first + draft_ids@.len()
                &&& forall|k: int| 0 <= k < ids.len() ==> #[trigger] ids[k] == first + k
                &&& forall|i: int|
                    0 <= i < first ==> #[trigger] final(self).lockups@[i] == old(self).lockups@[i]
                        && final(self).account_lockups@[i] == old(self).account_lockups@[i]
                &&& forall|k: int|
                    0 <= k < draft_ids@.len() ==> #[trigger] final(self).lockups@[first + k]@
                        == converted(*old(self), draft_ids@[k]) && final(self).account_lockups@[first
                        + k]
                &&& forall|d: DraftIndex|
                    #[trigger] final(self).drafts@.contains_key(d) <==> old(self).drafts@.contains_key(d)
                        && !draft_ids@.contains(d)
                &&& drafts_removed(*old(self), *final(self), draft_ids@)
            },
    {
        let n = draft_ids.len();
        if n > u32::MAX as usize - self.lockups.len() {
            return Err(LockupError::ArithmeticOverflow);
        }
        let mut k: usize = 0;
        while k < n
            invariant
                n == draft_ids@.len(),
                k <= n,
                self.wf(),
                *self == *old(self),
                self.lockups@.len() + n <= u32::MAX,
                forall|i: int|
                    0 <= i < k ==> {
                        let d = #[trigger] draft_ids@[i];
                        &&& self.drafts@.contains_key(d)
                        &&& self.draft_groups@[self.drafts@[d].draft_group_id]@.payer_id is Some
                        &&& !self.draft_groups@[self.drafts@[d].draft_group_id]@.discarded
                        &&& forall|j: int| 0 <= j < i ==> draft_ids@[j] != d
                    },
            decreases n - k,
        {
            let draft_id = draft_ids[k];
            let draft = match self.drafts.get(&draft_id) {
                Some(d) => d,
                None => {
                    return Err(LockupError::DraftNotFound);
                },
            };
            let mut j: usize = 0;
            while j < k
                invariant
                    self.wf(),
                    *self == *old(self),
                    j <= k,
                    k < n,
                    n == draft_ids@.len(),
                    draft_id == draft_ids@[k as int],
                    forall|i: int| 0 <= i < j ==> draft_ids@[i] != draft_id,
                decreases k - j,
            {
                if draft_ids[j] == draft_id {
                    return Err(LockupError::DraftNotFound);
                }
                j = j + 1;
            }
            assert(self.draft_wf(draft_id));
            let group = match self.draft_groups.get(&draft.draft_group_id) {
                Some(g) => g,
                None => {
                    return Err(LockupError::DraftGroupNotFound);
                },
            };
            if let Err(e) = group.assert_can_convert_draft() {
                return Err(e);
            }
            k = k + 1;
        }
        let ghost pre = *self;
        proof {
            lemma_drafts_removed_none(pre);
            assert(draft_ids@.subrange(0, 0) =~= seq![]);
        }
        let first = self.lockups.len();
        let mut ids: Vec<LockupIndex> = Vec::new();
        let mut k: usize = 0;
        while k < n
            invariant
                n == draft_ids@.len(),
                k <= n,
                self.wf(),
                pre.wf(),
                batch_can_convert(pre, draft_ids@),
                first == pre.lockups@.len(),
                self.lockups@.len() == first + k,
                ids@.len() == k,
                forall|i: int| 0 <= i < k ==> #[trigger] ids@[i] == first + i,
                forall|i: int|
                    0 <= i < first ==> #[trigger] self.lockups@[i] == pre.lockups@[i]
                        && self.account_lockups@[i] == pre.account_lockups@[i],
                forall|i: int|
                    0 <= i < k ==> #[trigger] self.lockups@[first + i]@ == converted(pre, draft_ids@[i])
                        && self.account_lockups@[first + i],
                forall|d: DraftIndex|
                    #[trigger] self.drafts@.contains_key(d) <==> pre.drafts@.contains_key(d)
                        && !draft_ids@.subrange(0, k as int).contains(d),
                forall|d: DraftIndex|
                    #[trigger] self.drafts@.contains_key(d) ==> self.drafts@[d] == pre.drafts@[d],
                drafts_removed(pre, *self, draft_ids@.subrange(0, k as int)),
                forall|g: DraftGroupIndex|
                    #[trigger] self.draft_groups@.contains_key(g) ==> pre.draft_groups@.contains_key(g)
                        && self.draft_groups@[g]@.payer_id == pre.draft_groups@[g]@.payer_id
                        && self.draft_groups@[g]@.discarded == pre.draft_groups@[g]@.discarded,
            decreases n - k,
        {
            let draft_id = draft_ids[k];
            proof {
                let kk = k as int;
                assert(draft_ids@[kk] == draft_id);
                assert(!draft_ids@.subrange(0, kk).contains(draft_id)) by {
                    if draft_ids@.subrange(0, kk).contains(draft_id) {
                        let j = choose|j: int| 0 <= j < kk && draft_ids@.subrange(0, kk)[j] == draft_id;
                        assert(draft_ids@[j] == draft_id);
                    }
                }
            }
            proof {
                let kk = k as int;
                assert(self.drafts@.contains_key(draft_id));
                assert(self.drafts@[draft_id] == pre.drafts@[draft_id]);
                assert(self.draft_wf(draft_id));
                let g = self.drafts@[draft_id].draft_group_id;
                assert(self.draft_groups@.contains_key(g));
                assert(self.draft_groups@[g]@.payer_id == pre.draft_groups@[g]@.payer_id);
                assert(self.draft_groups@[g]@.payer_id is Some);
            }
            let ghost before = *self;
            let (draft, payer) = self.take_draft(draft_id);
            let ghost taken = *self;
            let payer_id = match payer {
                Some(p) => p,
                None => {
                    assert(false);
                    return Err(LockupError::InvariantViolation);
                },
            };
            let lockup = draft.lockup_create.into_lockup(&payer_id);
            let index = self.internal_add_lockup(lockup);
            ids.push(index);
            proof {
                let kk = k as int;
                assert forall|d: DraftIndex| #[trigger] self.drafts@.contains_key(d) <==> pre.drafts@.contains_key(d)
                    && !draft_ids@.subrange(0, kk + 1).contains(d) by {
                    let s0 = draft_ids@.subrange(0, kk);
                    let s1 = draft_ids@.subrange(0, kk + 1);
                    if s1.contains(d) {
                        let j = choose|j: int| 0 <= j < s1.len() && s1[j] == d;
                        if j < kk {
                            assert(s0[j] == d);
                        }
                    }
                    if s0.contains(d) {
                        let j = choose|j: int| 0 <= j < s0.len() && s0[j] == d;
                        assert(s1[j] == d);
                    }
                    if d == draft_id {
                        assert(s1[kk] == d);
                    }
                }
                assert forall|i: int| 0 <= i < kk + 1 implies #[trigger] self.lockups@[first + i]@ == converted(pre, draft_ids@[i])
                    && self.account_lockups@[first + i] by {
                    if i < kk {
                        assert(before.lockups@[first + i] == self.lockups@[first + i]);
                    } else {
                        assert(self.lockups@[first + i] == lockup);
                    }
                }
            }
            proof {
                let kk = k as int;
                assert(drafts_removed(before, *self, seq![draft_id]));
                lemma_drafts_removed_push(pre, before, *self, draft_ids@.subrange(0, kk), draft_id);
                assert(draft_ids@.subrange(0, kk + 1) =~= draft_ids@.subrange(0, kk).push(draft_id));
            }
            k = k + 1;
        }
        proof {
            assert forall|d: DraftIndex| #[trigger] self.drafts@.contains_key(d) <==> old(self).drafts@.contains_key(d)
                && !draft_ids@.contains(d) by {
                assert(draft_ids@.subrange(0, n as int) =~= draft_ids@);
            }
            assert(draft_ids@.subrange(0, n as int) =~= draft_ids@);
        }
        Ok(ids)
    }
}

impl Contract {
    /// Deletes a batch of drafts of discarded groups: either all of them or
    /// none. Groups left without drafts are dropped. Anyone may call it: the
    /// discard was authorized already.
    pub fn delete_drafts(&mut self, draft_ids: Vec<DraftIndex>) -> (r: Result<(), LockupError>)
        requires
            old(self).wf(),
        ensures
            final(self).wf(),
            r is Err ==> *final(self) == *old(self),
            r is Ok <==> batch_can_delete(*old(self), draft_ids@),
            r is Ok ==> {
                &&& forall|d: DraftIndex|
                    #[trigger] final(self).drafts@.contains_key(d) <==> old(self).drafts@.contains_key(d)
                        && !draft_ids@.contains(d)
                &&& drafts_removed(*old(self), *final(self), draft_ids@)
                &&& final(self).lockups == old(self).lockups
                &&& final(self).account_lockups == old(self).account_lockups
            },
    {
        let n = draft_ids.len();
        let mut k: usize = 0;
        while k < n
            invariant
                n == draft_ids@.len(),
                k <= n,
                self.wf(),
                *self == *old(self),
                forall|i: int|
                    0 <= i < k ==> {
                        let d = #[trigger] draft_ids@[i];
                        &&& self.drafts@.contains_key(d)
                        &&& self.draft_groups@[self.drafts@[d].draft_group_id]@.discarded
                        &&& self.draft_groups@[self.drafts@[d].draft_group_id]@.payer_id is None
                        &&& forall|j: int| 0 <= j < i ==> draft_ids@[j] != d
                    },
            decreases n - k,
        {
            let draft_id = draft_ids[k];
            let draft = match self.drafts.get(&draft_id) {
                Some(d) => d,
                None => {
                    return Err(LockupError::DraftNotFound);
                },
            };
            let mut j: usize = 0;
            while j < k
                invariant
                    self.wf(),
                    *self == *old(self),
                    j <= k,
                    k < n,
                    n == draft_ids@.len(),
                    draft_id == draft_ids@[k as int],
                    forall|i: int| 0 <= i < j ==> draft_ids@[i] != draft_id,
                decreases k - j,
            {
                if draft_ids[j] == draft_id {
                    return Err(LockupError::DraftNotFound);
                }
                j = j + 1;
            }
            assert(self.draft_wf(draft_id));
            let group = match self.draft_groups.get(&draft.draft_group_id) {
                Some(g) => g,
                None => {
                    return Err(LockupError::DraftGroupNotFound);
                },
            };
            if let Err(e) = group.assert_can_delete_draft() {
                return Err(e);
            }
            k = k + 1;
        }
        let ghost pre = *self;
        proof {
            lemma_drafts_removed_none(pre);
            assert(draft_ids@.subrange(0, 0) =~= seq![]);
        }
        let mut k: usize = 0;
        while k < n
            invariant
                n == draft_ids@.len(),
                k <= n,
                self.wf(),
                pre.wf(),
                batch_can_delete(pre, draft_ids@),
                self.lockups == pre.lockups,
                self.account_lockups == pre.account_lockups,
                forall|d: DraftIndex|
                    #[trigger] self.drafts@.contains_key(d) <==> pre.drafts@.contains_key(d)
                        && !draft_ids@.subrange(0, k as int).contains(d),
                forall|d: DraftIndex|
                    #[trigger] self.drafts@.contains_key(d) ==> self.drafts@[d] == pre.drafts@[d],
                drafts_removed(pre, *self, draft_ids@.subrange(0, k as int)),
            decreases n - k,
        {
            let draft_id = draft_ids[k];
            proof {
                let kk = k as int;
                assert(draft_ids@[kk] == draft_id);
                assert(!draft_ids@.subrange(0, kk).contains(draft_id)) by {
                    if draft_ids@.subrange(0, kk).contains(draft_id) {
                        let j = choose|j: int| 0 <= j < kk && draft_ids@.subrange(0, kk)[j] == draft_id;
                        assert(draft_ids@[j] == draft_id);
                    }
                }
            }
            let ghost before = *self;
            let _ = self.take_draft(draft_id);
            proof {
                let kk = k as int;
                lemma_drafts_removed_push(pre, before, *self, draft_ids@.subrange(0, kk), draft_id);
                assert(draft_ids@.subrange(0, kk + 1) =~= draft_ids@.subrange(0, kk).push(draft_id));
                assert forall|d: DraftIndex| #[trigger] self.drafts@.contains_key(d) <==> pre.drafts@.contains_key(d)
                    && !draft_ids@.subrange(0, kk + 1).contains(d) by {
                    let s0 = draft_ids@.subrange(0, kk);
                    let s1 = draft_ids@.subrange(0, kk + 1);
                    if s1.contains(d) {
                        let j = choose|j: int| 0 <= j < s1.len() && s1[j] == d;
                        if j < kk {
                            assert(s0[j] == d);
                        }
                    }
                    if s0.contains(d) {
                        let j = choose|j: int| 0 <= j < s0.len() && s0[j] == d;
                        assert(s1[j] == d);
                    }
                    if d == draft_id {
                        assert(s1[kk] == d);
                    }
                }
            }
            k = k + 1;
        }
        proof {
            assert(draft_ids@.subrange(0, n as int) =~= draft_ids@);
        }
        Ok(())
    }

    /// Discards a group that was not funded. A group without drafts is
    /// dropped at once; otherwise its drafts are to be deleted, and the
    /// group goes with the last of them.
    pub fn discard_draft_group(&mut self, caller: &AccountId, draft_group_id: DraftGroupIndex) -> (r:
        Result<(), LockupError>)
        requires
            old(self).wf(),
        ensures
            final(self).wf(),
            r is Err ==> *final(self) == *old(self),
            !old(self).is_draft_operator(caller@) ==> r == Err::<(), LockupError>(
                LockupError::NotAuthorized,
            ),
            old(self).is_draft_operator(caller@) && !old(self).draft_groups@.contains_key(draft_group_id)
                ==> r == Err::<(), LockupError>(LockupError::DraftGroupNotFound),
            r is Ok <==> old(self).is_draft_operator(caller@) && old(self).draft_groups@.contains_key(
                draft_group_id,
            ) && !old(self).draft_groups@[draft_group_id]@.discarded
                && old(self).draft_groups@[draft_group_id]@.payer_id is None,
            r is Ok ==> {
                let g = old(self).draft_groups@[draft_group_id]@;
                &&& final(self).drafts == old(self).drafts
                &&& final(self).draft_groups@.contains_key(draft_group_id) <==> !g.draft_indices.is_empty()
                &&& final(self).draft_groups@.contains_key(draft_group_id) ==> final(self).draft_groups@[draft_group_id]@
                    == (crate::draft::DraftGroupModel { discarded: true, ..g })
                &&& forall|h: DraftGroupIndex|
                    h != draft_group_id ==> (#[trigger] final(self).draft_groups@.contains_key(h)
                        <==> old(self).draft_groups@.contains_key(h))
                        && (final(self).draft_groups@.contains_key(h) ==> final(self).draft_groups@[h]
                        == old(self).draft_groups@[h])
            },
    {
        if let Err(e) = self.check_draft_operator(caller) {
            return Err(e);
        }
        match self.draft_groups.get(&draft_group_id) {
            Some(group) => {
                if let Err(e) = group.assert_can_discard() {
                    return Err(e);
                }
            },
            None => {
                return Err(LockupError::DraftGroupNotFound);
            },
        }
        let ghost pre = *self;
        let mut group = match self.draft_groups.remove(&draft_group_id) {
            Some(g) => g,
            None => {
                assert(false);
                return Err(LockupError::DraftGroupNotFound);
            },
        };
        assert(pre.group_wf(draft_group_id));
        let _ = group.discard();
        if !group.draft_indices.is_empty() {
            self.draft_groups.insert(draft_group_id, group);
        } else {
            assert forall|d: DraftIndex| #[trigger] self.drafts@.contains_key(d) implies self.drafts@[d].draft_group_id != draft_group_id by {
                assert(pre.draft_wf(d));
            }
        }
        proof {
            assert forall|g: DraftGroupIndex| #[trigger] self.draft_groups@.contains_key(g) implies self.group_wf(g) by {
                assert(pre.group_wf(g));
            }
            assert forall|d: DraftIndex| #[trigger] self.drafts@.contains_key(d) implies self.draft_wf(d) by {
                assert(pre.draft_wf(d));
            }
        }
        Ok(())
    }

    /// Funds a draft group with a transfer of `amount` from `sender_id`,
    /// which must match the group's total exactly. The sender becomes the
    /// group's payer.
    pub fn fund_draft_group(
        &mut self,
        sender_id: &AccountId,
        amount: Balance,
        draft_group_id: DraftGroupIndex,
    ) -> (r: Result<(), LockupError>)
        requires
            old(self).wf(),
        ensures
            final(self).wf(),
            r is Err ==> *final(self) == *old(self),
            !listed_in(old(self).deposit_whitelist@, sender_id@) ==> r == Err::<(), LockupError>(
                LockupError::NotAuthorized,
            ),
            listed_in(old(self).deposit_whitelist@, sender_id@) && !old(self).draft_groups@.contains_key(
                draft_group_id,
            ) ==> r == Err::<(), LockupError>(LockupError::DraftGroupNotFound),
            listed_in(old(self).deposit_whitelist@, sender_id@) && old(self).draft_groups@.contains_key(
                draft_group_id,
            ) && old(self).draft_groups@[draft_group_id]@.total_amount != amount ==> r == Err::<
                (),
                LockupError,
            >(LockupError::AmountMismatch),
            r is Ok <==> listed_in(old(self).deposit_whitelist@, sender_id@) && old(self).draft_groups@.contains_key(
                draft_group_id,
            ) && old(self).draft_groups@[draft_group_id]@.total_amount == amount && !old(self).draft_groups@[draft_group_id]@.discarded
                && old(self).draft_groups@[draft_group_id]@.payer_id is None,
            r is Ok ==> {
                &&& final(self).draft_groups@.dom() == old(self).draft_groups@.dom()
                &&& final(self).draft_groups@[draft_group_id]@ == (crate::draft::DraftGroupModel {
                    payer_id: Some(sender_id@),
                    ..old(self).draft_groups@[draft_group_id]@
                })
                &&& forall|h: DraftGroupIndex|
                    h != draft_group_id && #[trigger] final(self).draft_groups@.contains_key(h) ==> final(self).draft_groups@[h]
                        == old(self).draft_groups@[h]
                &&& final(self).drafts == old(self).drafts
                &&& final(self).account_lockups == old(self).account_lockups
                &&& final(self).lockups == old(self).lockups
            },
    {
        if let Err(e) = self.check_deposit_whitelist(sender_id) {
            return Err(e);
        }
        match self.draft_groups.get(&draft_group_id) {
            Some(group) => {
                if group.total_amount != amount {
                    return Err(LockupError::AmountMismatch);
                }
                if let Err(e) = group.assert_can_fund() {
                    return Err(e);
                }
            },
            None => {
                return Err(LockupError::DraftGroupNotFound);
            },
        }
        let ghost pre = *self;
        let mut group = match self.draft_groups.remove(&draft_group_id) {
            Some(g) => g,
            None => {
                assert(false);
                return Err(LockupError::DraftGroupNotFound);
            },
        };
        let _ = group.fund(sender_id);
        self.draft_groups.insert(draft_group_id, group);
        proof {
            assert forall|g: DraftGroupIndex| #[trigger] self.draft_groups@.contains_key(g) implies self.group_wf(g) by {
                assert(pre.group_wf(g));
            }
            assert forall|d: DraftIndex| #[trigger] self.drafts@.contains_key(d) implies self.draft_wf(d) by {
                assert(pre.draft_wf(d));
            }
        }
        Ok(())
    }
}

impl Contract {
    /// Creates one draft: a batch of one.
    pub fn create_draft(&mut self, caller: &AccountId, draft: Draft) -> (r: Result<DraftIndex, LockupError>)
        requires
            old(self).wf(),
        ensures
            final(self).wf(),
            r is Err ==> *final(self) == *old(self),
            r is Ok <==> old(self).is_draft_operator(caller@) && batch_can_add(*old(self), seq![draft]),
            r is Ok ==> r->Ok_0 == old(self).next_draft_id && final(self).drafts@[r->Ok_0]@ == draft@,
    {
        let ghost d = draft;
        let mut batch: Vec<Draft> = Vec::new();
        batch.push(draft);
        assert(batch@ =~= seq![d]);
        match self.create_drafts(caller, batch) {
            Ok(ids) => {
                assert(ids@[0] == old(self).next_draft_id + 0);
                assert(self.drafts@[(old(self).next_draft_id + 0) as DraftIndex]@ == seq![d][0]@);
                Ok(ids[0])
            },
            Err(e) => Err(e),
        }
    }

    /// Turns one draft into a lockup: a batch of one.
    pub fn convert_draft(&mut self, draft_id: DraftIndex) -> (r: Result<LockupIndex, LockupError>)
        requires
            old(self).wf(),
        ensures
            final(self).wf(),
            r is Err ==> *final(self) == *old(self),
            r is Ok <==> batch_can_convert(*old(self), seq![draft_id]),
            r is Ok ==> r->Ok_0 == old(self).lockups@.len() && final(self).lockups@[r->Ok_0 as int]@
                == converted(*old(self), draft_id),
    {
        let mut batch: Vec<DraftIndex> = Vec::new();
        batch.push(draft_id);
        assert(batch@ =~= seq![draft_id]);
        match self.convert_drafts(batch) {
            Ok(ids) => {
                assert(ids@[0] == old(self).lockups@.len() + 0);
                assert(self.lockups@[old(self).lockups@.len() as int + 0]@ == converted(*old(self), seq![draft_id][0]));
                Ok(ids[0])
            },
            Err(e) => Err(e),
        }
    }
}

} // verus!
