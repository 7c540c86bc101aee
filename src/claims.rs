//! Claims on the ledger: what a claim takes from each lockup, applying it
//! as a whole, and settling it once the transfer is known.

use crate::draft::{DraftGroupIndex, DraftIndex};
use crate::error::LockupError;
use crate::ledger::Contract;
use crate::lockup::{Lockup, LockupClaim, LockupIndex, LockupModel, claimable, lockup_wf, with_claimed};
use crate::schedule::{total_of, unlocked_at};
use crate::{AccountId, Balance, TimestampSec};
use vstd::prelude::*;

verus! {

broadcast use vstd::std_specs::hash::group_hash_axioms;

/// The indices of the entries of a claim plan.
pub open spec fn plan_indices(plan: Seq<(LockupIndex, Balance)>) -> Seq<LockupIndex> {
    plan.map_values(|e: (LockupIndex, Balance)| e.0)
}

/// No lockup appears twice.
pub open spec fn distinct_indices(ids: Seq<LockupIndex>) -> bool {
    forall|i: int, j: int| 0 <= i < j < ids.len() ==> #[trigger] ids[i] != #[trigger] ids[j]
}

/// The sum of the amounts of a claim plan.
pub open spec fn plan_sum(plan: Seq<(LockupIndex, Balance)>) -> int
    decreases plan.len(),
{
    if plan.len() == 0 {
        0
    } else {
        plan_sum(plan.drop_last()) + plan.last().1
    }
}

/// The claim records of a plan carried out on `ls`: one for each entry with
/// a positive amount, in order.
pub open spec fn plan_claims(plan: Seq<(LockupIndex, Balance)>, ls: Seq<LockupModel>) -> Seq<
    LockupClaim,
>
    decreases plan.len(),
{
    if plan.len() == 0 {
        seq![]
    } else {
        let (index, amount) = plan.last();
        let l = ls[index as int];
        plan_claims(plan.drop_last(), ls) + if amount > 0 {
            seq![
                LockupClaim {
                    index,
                    claim_amount: amount,
                    is_final: l.claimed_balance + amount == total_of(l.schedule),
                },
            ]
        } else {
            seq![]
        }
    }
}

/// Each entry of the plan can be claimed at `now`.
pub open spec fn plan_claimable(plan: Seq<(LockupIndex, Balance)>, ls: Seq<LockupModel>, now: int) -> bool {
    forall|k: int|
        0 <= k < plan.len() ==> {
            let (index, amount) = #[trigger] plan[k];
            ls[index as int].claimed_balance + amount <= unlocked_at(ls[index as int].schedule, now)
        }
}

impl Contract {
    /// The lockups as their models.
    pub open spec fn lockup_views(&self) -> Seq<LockupModel> {
        self.lockups@.map_values(|l: Lockup| l@)
    }

    /// Works out what a claim by `account_id` takes from each lockup: the
    /// given amount, or, where none is given, everything claimable at `now`.
    /// Without a list, every lockup listed under the account is claimed in
    /// full, in index order.
    pub fn claim_amounts(
        &self,
        account_id: &AccountId,
        amounts: Option<Vec<(LockupIndex, Option<Balance>)>>,
        now: TimestampSec,
    ) -> (r: Result<Vec<(LockupIndex, Balance)>, LockupError>)
        requires
            self.wf(),
        ensures
            r is Ok ==> {
                let plan = r->Ok_0@;
                &&& distinct_indices(plan_indices(plan))
                &&& forall|k: int|
                    0 <= k < plan.len() ==> self.account_lockup_ids(account_id@).contains(
                        #[trigger] plan[k].0,
                    )
            },
            match amounts {
                Some(list) => {
                    &&& r is Ok <==> distinct_indices(list@.map_values(|e: (LockupIndex, Option<Balance>)| e.0))
                        && forall|k: int|
                        0 <= k < list@.len() ==> self.account_lockup_ids(account_id@).contains(
                            #[trigger] list@[k].0,
                        )
                    &&& r is Ok ==> {
                        let plan = r->Ok_0@;
                        &&& plan.len() == list@.len()
                        &&& forall|k: int|
                            0 <= k < plan.len() ==> (#[trigger] plan[k]).0 == list@[k].0 && plan[k].1
                                == match list@[k].1 {
                                Some(a) => a as int,
                                None => claimable(self.lockups@[plan[k].0 as int]@, now as int),
                            }
                    }
                },
                None => {
                    &&& r is Ok
                    &&& forall|i: LockupIndex|
                        self.account_lockup_ids(account_id@).contains(i) ==> plan_indices(r->Ok_0@).contains(i)
                    &&& forall|k: int|
                        0 <= k < r->Ok_0@.len() ==> (#[trigger] r->Ok_0@[k]).1 == claimable(
                            self.lockups@[r->Ok_0@[k].0 as int]@,
                            now as int,
                        )
                },
            },
    {
        let mut plan: Vec<(LockupIndex, Balance)> = Vec::new();
        match &amounts {
            None => {
                let mut i: usize = 0;
                while i < self.lockups.len()
                    invariant
                        self.wf(),
                        i <= self.lockups@.len(),
                        forall|k: int| 0 <= k < plan@.len() ==> #[trigger] plan@[k].0 < i,
                        distinct_indices(plan_indices(plan@)),
                        forall|k: int|
                            0 <= k < plan@.len() ==> self.account_lockup_ids(account_id@).contains(
                                #[trigger] plan@[k].0,
                            ),
                        forall|j: LockupIndex|
                            j < i && self.account_lockup_ids(account_id@).contains(j) ==> plan_indices(
                                plan@,
                            ).contains(j),
                        forall|k: int|
                            0 <= k < plan@.len() ==> (#[trigger] plan@[k]).1 == claimable(
                                self.lockups@[plan@[k].0 as int]@,
                                now as int,
                            ),
                    decreases self.lockups@.len() - i,
                {
                    if self.account_lockups[i] && self.lockups[i].account_id == *account_id {
                        let amount = self.unclaimed_balance(i, now);
                        let ghost before = plan@;
                        plan.push((i as LockupIndex, amount));
                        proof {
                            assert(plan_indices(plan@) =~= plan_indices(before).push(i as LockupIndex));
                            assert forall|j: LockupIndex|
                                j < i + 1 && self.account_lockup_ids(account_id@).contains(j) implies plan_indices(
                                plan@,
                            ).contains(j) by {
                                if j < i {
                                    assert(plan_indices(before).contains(j));
                                    let k = choose|k: int| 0 <= k < plan_indices(before).len() && plan_indices(before)[k] == j;
                                    assert(plan_indices(plan@)[k] == j);
                                } else {
                                    assert(plan_indices(plan@)[before.len() as int] == j);
                                }
                            }
                        }
                    } else {
                        proof {
                            assert(!self.account_lockup_ids(account_id@).contains(i as LockupIndex));
                        }
                    }
                    i = i + 1;
                }
            },
            Some(list) => {
                let n = list.len();
                let mut k: usize = 0;
                while k < n
                    invariant
                        self.wf(),
                        amounts == Some(*list),
                        n == list@.len(),
                        k <= n,
                        plan@.len() == k,
                        forall|j: int|
                            0 <= j < k ==> self.account_lockup_ids(account_id@).contains(
                                #[trigger] list@[j].0,
                            ),
                        forall|a: int, b: int| 0 <= a < b < k ==> #[trigger] list@[a].0 != #[trigger] list@[b].0,
                        forall|j: int|
                            0 <= j < k ==> (#[trigger] plan@[j]).0 == list@[j].0 && plan@[j].1 == match list@[j].1 {
                                Some(a) => a as int,
                                None => claimable(self.lockups@[plan@[j].0 as int]@, now as int),
                            },
                    decreases n - k,
                {
                    let (index, requested) = list[k];
                    let i = index as usize;
                    if i >= self.lockups.len() || !self.account_lockups[i]
                        || self.lockups[i].account_id != *account_id {
                        proof {
                            assert(list@[k as int].0 == index);
                            assert(!self.account_lockup_ids(account_id@).contains(index));
                            assert(!(forall|x: int|
                                0 <= x < list@.len() ==> self.account_lockup_ids(account_id@).contains(
                                    #[trigger] list@[x].0,
                                )));
                        }
                        return Err(LockupError::LockupNotFound);
                    }
                    let mut j: usize = 0;
                    while j < k
                        invariant
                            amounts == Some(*list),
                            n == list@.len(),
                            j <= k,
                            k < n,
                            index == list@[k as int].0,
                            forall|a: int| 0 <= a < j ==> list@[a].0 != index,
                        decreases k - j,
                    {
                        if list[j].0 == index {
                            proof {
                                let ids = list@.map_values(|e: (LockupIndex, Option<Balance>)| e.0);
                                assert(ids[j as int] == list@[j as int].0);
                                assert(ids[k as int] == list@[k as int].0);
                                assert(ids[j as int] == ids[k as int]);
                                assert(!distinct_indices(ids));
                            }
                            return Err(LockupError::DuplicateLockupIndex);
                        }
                        j = j + 1;
                    }
                    let amount = match requested {
                        Some(a) => a,
                        None => self.unclaimed_balance(i, now),
                    };
                    plan.push((index, amount));
                    k = k + 1;
                }
                proof {
                    let ids = list@.map_values(|e: (LockupIndex, Option<Balance>)| e.0);
                    assert(plan_indices(plan@) =~= ids);
                }
            },
        }
        Ok(plan)
    }

    /// What lockup `index` has unlocked at `now` and not yet claimed.
    pub fn unclaimed_balance(&self, index: usize, now: TimestampSec) -> (r: Balance)
        requires
            self.wf(),
            index < self.lockups@.len(),
        ensures
            r == claimable(self.lockups@[index as int]@, now as int),
    {
        let lockup = &self.lockups[index];
        assert(lockup_wf(lockup@));
        let unlocked = lockup.schedule.unlocked_balance(now);
        if unlocked >= lockup.claimed_balance {
            unlocked - lockup.claimed_balance
        } else {
            0
        }
    }

    /// Carries out a claim plan at `now`: either every entry is claimed or
    /// none is. Returns the sum claimed and one record per entry with a
    /// positive amount; the caller transfers the sum and reports back.
    pub fn apply_claims(&mut self, plan: Vec<(LockupIndex, Balance)>, now: TimestampSec) -> (r: Result<
        (Balance, Vec<LockupClaim>),
        LockupError,
    >)
        requires
            old(self).wf(),
            distinct_indices(plan_indices(plan@)),
            forall|k: int| 0 <= k < plan@.len() ==> (#[trigger] plan@[k]).0 < old(self).lockups@.len(),
        ensures
            final(self).wf(),
            r is Err ==> *final(self) == *old(self),
            r is Ok <==> plan_claimable(plan@, old(self).lockup_views(), now as int) && plan_sum(plan@)
                <= u128::MAX,
            r is Ok ==> {
                &&& r->Ok_0.0 == plan_sum(plan@)
                &&& r->Ok_0.1@ == plan_claims(plan@, old(self).lockup_views())
                &&& final(self).lockups@.len() == old(self).lockups@.len()
                &&& final(self).account_lockups == old(self).account_lockups
                &&& forall|k: int|
                    0 <= k < plan@.len() ==> #[trigger] final(self).lockups@[plan@[k].0 as int]@
                        == with_claimed(
                        old(self).lockups@[plan@[k].0 as int]@,
                        (old(self).lockups@[plan@[k].0 as int]@.claimed_balance + plan@[k].1) as Balance,
                    )
                &&& forall|i: int|
                    0 <= i < old(self).lockups@.len() && !plan_indices(plan@).contains(i as LockupIndex)
                        ==> #[trigger] final(self).lockups@[i]@ == old(self).lockups@[i]@
            },
    {
        let n = plan.len();
        let mut total: Balance = 0;
        let mut k: usize = 0;
        while k < n
            invariant
                self.wf(),
                *self == *old(self),
                n == plan@.len(),
                k <= n,
                forall|j: int| 0 <= j < n ==> (#[trigger] plan@[j]).0 < self.lockups@.len(),
                plan_claimable(plan@.subrange(0, k as int), self.lockup_views(), now as int),
                total == plan_sum(plan@.subrange(0, k as int)),
            decreases n - k,
        {
            let (index, amount) = plan[k];
            let lockup = &self.lockups[index as usize];
            proof {
                assert(plan@.subrange(0, k as int + 1).drop_last() =~= plan@.subrange(0, k as int));
                assert(self.lockup_views()[index as int] == lockup@);
            }
            let claimed = match lockup.claimed_balance.checked_add(amount) {
                Some(c) => c,
                None => {
                    proof {
                        assert(plan@.subrange(0, n as int)[k as int] == plan@[k as int]);
                        assert(plan@.subrange(0, n as int) =~= plan@);
                        crate::schedule::lemma_unlocked_bounds(lockup@.schedule, now as int);
                        assert(lockup_wf(lockup@));
                    }
                    return Err(LockupError::ArithmeticOverflow);
                },
            };
            if claimed > lockup.schedule.unlocked_balance(now) {
                proof {
                    assert(plan@[k as int] == (index, amount));
                }
                return Err(LockupError::ClaimExceedsUnlocked { index });
            }
            total = match total.checked_add(amount) {
                Some(t) => t,
                None => {
                    proof {
                        lemma_plan_sum_prefix_bound(plan@, k as int + 1);
                        assert(plan@.subrange(0, n as int) =~= plan@);
                    }
                    return Err(LockupError::ArithmeticOverflow);
                },
            };
            proof {
                let sub = plan@.subrange(0, k as int + 1);
                assert forall|j: int| 0 <= j < sub.len() implies {
                    let (index, amount) = #[trigger] sub[j];
                    self.lockup_views()[index as int].claimed_balance + amount <= unlocked_at(
                        self.lockup_views()[index as int].schedule,
                        now as int,
                    )
                } by {
                    if j < k {
                        assert(sub[j] == plan@.subrange(0, k as int)[j]);
                    }
                }
            }
            k = k + 1;
        }
        proof {
            assert(plan@.subrange(0, n as int) =~= plan@);
        }
        let ghost pre = *self;
        let mut claims: Vec<LockupClaim> = Vec::new();
        let mut k: usize = 0;
        while k < n
            invariant
                self.wf(),
                pre.wf(),
                n == plan@.len(),
                k <= n,
                distinct_indices(plan_indices(plan@)),
                forall|j: int| 0 <= j < n ==> (#[trigger] plan@[j]).0 < pre.lockups@.len(),
                plan_claimable(plan@, pre.lockup_views(), now as int),
                self.lockups@.len() == pre.lockups@.len(),
                self.account_lockups == pre.account_lockups,
                self.drafts == pre.drafts,
                self.draft_groups == pre.draft_groups,
                self.next_draft_id == pre.next_draft_id,
                self.next_draft_group_id == pre.next_draft_group_id,
                self.deposit_whitelist == pre.deposit_whitelist,
                self.draft_operators_whitelist == pre.draft_operators_whitelist,
                self.token_account_id == pre.token_account_id,
                claims@ == plan_claims(plan@.subrange(0, k as int), pre.lockup_views()),
                forall|j: int|
                    0 <= j < k ==> #[trigger] self.lockups@[plan@[j].0 as int]@ == with_claimed(
                        pre.lockups@[plan@[j].0 as int]@,
                        (pre.lockups@[plan@[j].0 as int]@.claimed_balance + plan@[j].1) as Balance,
                    ),
                forall|i: int|
                    0 <= i < pre.lockups@.len() && !plan_indices(plan@.subrange(0, k as int)).contains(
                        i as LockupIndex,
                    ) ==> #[trigger] self.lockups@[i]@ == pre.lockups@[i]@,
            decreases n - k,
        {
            let (index, amount) = plan[k];
            let i = index as usize;
            proof {
                assert(plan@[k as int] == (index, amount));
                assert(!plan_indices(plan@.subrange(0, k as int)).contains(index)) by {
                    if plan_indices(plan@.subrange(0, k as int)).contains(index) {
                        let j = choose|j: int| 0 <= j < k && plan_indices(plan@.subrange(0, k as int))[j] == index;
                        assert(plan_indices(plan@)[j] == plan_indices(plan@)[k as int]);
                    }
                }
                assert(self.lockups@[i as int]@ == pre.lockups@[i as int]@);
                assert(pre.lockup_views()[i as int] == pre.lockups@[i as int]@);
            }
            let mut lockup = self.lockups[i].clone();
            let ghost before = *self;
            let claim = match lockup.claim(index, amount, now) {
                Ok(c) => c,
                Err(e) => {
                    assert(false);
                    return Err(e);
                },
            };
            self.lockups.set(i, lockup);
            if amount > 0 {
                claims.push(claim);
            }
            proof {
                let sub = plan@.subrange(0, k as int + 1);
                assert(sub.drop_last() =~= plan@.subrange(0, k as int));
                assert(sub.last() == (index, amount));
                assert(claims@ =~= plan_claims(sub, pre.lockup_views()));
                assert(plan_indices(sub) =~= plan_indices(plan@.subrange(0, k as int)).push(index));
                assert forall|j: int| 0 <= j < k + 1 implies #[trigger] self.lockups@[plan@[j].0 as int]@ == with_claimed(
                    pre.lockups@[plan@[j].0 as int]@,
                    (pre.lockups@[plan@[j].0 as int]@.claimed_balance + plan@[j].1) as Balance,
                ) by {
                    if j < k {
                        assert(plan_indices(plan@)[j] != plan_indices(plan@)[k as int]);
                    }
                }
                assert forall|x: int| 0 <= x < pre.lockups@.len() && !plan_indices(sub).contains(x as LockupIndex) implies #[trigger] self.lockups@[x]@ == pre.lockups@[x]@ by {
                    if x == i as int {
                        assert(plan_indices(sub)[k as int] == index);
                    }
                    if plan_indices(plan@.subrange(0, k as int)).contains(x as LockupIndex) {
                        let j = choose|j: int| 0 <= j < k && plan_indices(plan@.subrange(0, k as int))[j] == x as LockupIndex;
                        assert(plan_indices(sub)[j] == x as LockupIndex);
                    }
                }
                assert forall|g: DraftGroupIndex| #[trigger] self.draft_groups@.contains_key(g) implies self.group_wf(g) by {
                    assert(before.group_wf(g));
                }
                assert forall|d: DraftIndex| #[trigger] self.drafts@.contains_key(d) implies self.draft_wf(d) by {
                    assert(before.draft_wf(d));
                }
            }
            k = k + 1;
        }
        proof {
            assert(plan@.subrange(0, n as int) =~= plan@);
        }
        Ok((total, claims))
    }
}

/// `plan` is what a claim by `account` with `amounts` at `now` takes from
/// the lockups of `c`.
pub open spec fn plan_resolves(
    c: Contract,
    account: Seq<char>,
    amounts: Option<Vec<(LockupIndex, Option<Balance>)>>,
    now: int,
    plan: Seq<(LockupIndex, Balance)>,
) -> bool {
    &&& distinct_indices(plan_indices(plan))
    &&& forall|k: int|
        0 <= k < plan.len() ==> c.account_lockup_ids(account).contains(#[trigger] plan[k].0)
    &&& forall|k: int|
        0 <= k < plan.len() ==> (#[trigger] plan[k]).1 == match amounts {
            Some(list) => match list@[k].1 {
                Some(a) => a as int,
                None => claimable(c.lockups@[plan[k].0 as int]@, now),
            },
            None => claimable(c.lockups@[plan[k].0 as int]@, now),
        }
    &&& match amounts {
        Some(list) => plan.len() == list@.len() && forall|k: int|
            0 <= k < plan.len() ==> (#[trigger] plan[k]).0 == list@[k].0,
        None => forall|i: LockupIndex|
            c.account_lockup_ids(account).contains(i) ==> plan_indices(plan).contains(i),
    }
}

/// `after` is `before` with the plan claimed: the sum and the records are
/// `r`.
pub open spec fn plan_applied(
    before: Contract,
    after: Contract,
    plan: Seq<(LockupIndex, Balance)>,
    r: (Balance, Vec<LockupClaim>),
) -> bool {
    &&& r.0 == plan_sum(plan)
    &&& r.1@ == plan_claims(plan, before.lockup_views())
    &&& after.lockups@.len() == before.lockups@.len()
    &&& after.account_lockups == before.account_lockups
    &&& forall|k: int|
        0 <= k < plan.len() ==> #[trigger] after.lockups@[plan[k].0 as int]@ == with_claimed(
            before.lockups@[plan[k].0 as int]@,
            (before.lockups@[plan[k].0 as int]@.claimed_balance + plan[k].1) as Balance,
        )
    &&& forall|i: int|
        0 <= i < before.lockups@.len() && !plan_indices(plan).contains(i as LockupIndex)
            ==> #[trigger] after.lockups@[i]@ == before.lockups@[i]@
}

/// The sum of the amounts of claim records.
pub open spec fn claims_total(claims: Seq<LockupClaim>) -> int
    decreases claims.len(),
{
    if claims.len() == 0 {
        0
    } else {
        claims_total(claims.drop_last()) + claims.last().claim_amount
    }
}

/// Gives back one claimed amount, where the lockup has that much claimed.
pub open spec fn refund_one(ls: Seq<LockupModel>, c: LockupClaim) -> Seq<LockupModel> {
    if c.index < ls.len() && ls[c.index as int].claimed_balance >= c.claim_amount {
        ls.update(
            c.index as int,
            with_claimed(
                ls[c.index as int],
                (ls[c.index as int].claimed_balance - c.claim_amount) as Balance,
            ),
        )
    } else {
        ls
    }
}

/// The lockups once every claim of `claims` is given back, in order.
pub open spec fn refunded(ls: Seq<LockupModel>, claims: Seq<LockupClaim>) -> Seq<LockupModel>
    decreases claims.len(),
{
    if claims.len() == 0 {
        ls
    } else {
        refund_one(refunded(ls, claims.drop_last()), claims.last())
    }
}

/// Some record of `claims` is for lockup `i`, and, if `only_final`, took
/// everything that was left.
pub open spec fn claims_mention(claims: Seq<LockupClaim>, i: int, only_final: bool) -> bool {
    exists|k: int|
        0 <= k < claims.len() && #[trigger] claims[k].index == i && (claims[k].is_final || !only_final)
}

impl Contract {
    /// Claims for `account_id` at `now`: the amounts given, or everything
    /// claimable from each of its listed lockups. Either every claim goes
    /// through or none does. Returns the sum to transfer to the account and
    /// the records to settle the transfer with.
    pub fn claim(
        &mut self,
        account_id: &AccountId,
        amounts: Option<Vec<(LockupIndex, Option<Balance>)>>,
        now: TimestampSec,
    ) -> (r: Result<(Balance, Vec<LockupClaim>), LockupError>)
        requires
            old(self).wf(),
        ensures
            final(self).wf(),
            r is Err ==> *final(self) == *old(self),
            r is Ok ==> exists|plan: Seq<(LockupIndex, Balance)>|
                plan_resolves(*old(self), account_id@, amounts, now as int, plan) && plan_applied(
                    *old(self),
                    *final(self),
                    plan,
                    r->Ok_0,
                ),
            r is Err ==> (exists|plan: Seq<(LockupIndex, Balance)>|
                plan_resolves(*old(self), account_id@, amounts, now as int, plan) && !(
                plan_claimable(plan, old(self).lockup_views(), now as int) && plan_sum(plan)
                    <= u128::MAX)) || match amounts {
                Some(list) => !(distinct_indices(
                    list@.map_values(|e: (LockupIndex, Option<Balance>)| e.0),
                ) && forall|k: int|
                    0 <= k < list@.len() ==> old(self).account_lockup_ids(account_id@).contains(
                        #[trigger] list@[k].0,
                    )),
                None => false,
            },
    {
        let ghost amounts0 = amounts;
        let plan = match self.claim_amounts(account_id, amounts, now) {
            Ok(p) => p,
            Err(e) => {
                return Err(e);
            },
        };
        proof {
            assert(plan_resolves(*self, account_id@, amounts0, now as int, plan@));
            assert forall|k: int| 0 <= k < plan@.len() implies (#[trigger] plan@[k]).0 < self.lockups@.len() by {
                assert(self.account_lockup_ids(account_id@).contains(plan@[k].0));
            }
        }
        let ghost pre = *self;
        let ghost plan0 = plan@;
        let r = self.apply_claims(plan, now);
        proof {
            if r is Ok {
                assert(plan_applied(pre, *self, plan0, r->Ok_0));
            } else {
                assert(!(plan_claimable(plan0, pre.lockup_views(), now as int) && plan_sum(plan0) <= u128::MAX));
            }
        }
        r
    }

    /// Settles a claim once its transfer is known. On success the lockups
    /// that the claim emptied leave the account's list, and the sum claimed
    /// is returned; on failure every amount is given back to its lockup, the
    /// lockups are listed again, and nothing was paid out.
    pub fn after_ft_transfer(
        &mut self,
        account_id: &AccountId,
        lockup_claims: Vec<LockupClaim>,
        transfer_succeeded: bool,
    ) -> (r: Balance)
        requires
            old(self).wf(),
            claims_total(lockup_claims@) <= u128::MAX,
        ensures
            final(self).wf(),
            final(self).lockups@.len() == old(self).lockups@.len(),
            final(self).drafts == old(self).drafts,
            final(self).draft_groups == old(self).draft_groups,
            transfer_succeeded ==> {
                &&& r == claims_total(lockup_claims@)
                &&& final(self).lockups == old(self).lockups
                &&& forall|i: int|
                    0 <= i < old(self).lockups@.len() ==> #[trigger] final(self).account_lockups@[i] == (
                    old(self).account_lockups@[i] && !(claims_mention(lockup_claims@, i, true)
                        && old(self).lockups@[i]@.account_id == account_id@))
            },
            !transfer_succeeded ==> {
                &&& r == 0
                &&& final(self).lockup_views() == refunded(old(self).lockup_views(), lockup_claims@)
                &&& forall|i: int|
                    0 <= i < old(self).lockups@.len() ==> #[trigger] final(self).account_lockups@[i] == (
                    old(self).account_lockups@[i] || (claims_mention(lockup_claims@, i, false)
                        && old(self).lockups@[i]@.account_id == account_id@))
            },
    {
        let ghost pre = *self;
        let n = lockup_claims.len();
        let mut total: Balance = 0;
        let mut k: usize = 0;
        while k < n
            invariant
                self.wf(),
                pre.wf(),
                n == lockup_claims@.len(),
                k <= n,
                claims_total(lockup_claims@) <= u128::MAX,
                self.lockups@.len() == pre.lockups@.len(),
                self.drafts == pre.drafts,
                self.draft_groups == pre.draft_groups,
                transfer_succeeded ==> self.lockups == pre.lockups,
                transfer_succeeded ==> total == claims_total(lockup_claims@.subrange(0, k as int)),
                !transfer_succeeded ==> total == 0,
                transfer_succeeded ==> forall|i: int|
                    0 <= i < pre.lockups@.len() ==> #[trigger] self.account_lockups@[i] == (
                    pre.account_lockups@[i] && !(claims_mention(lockup_claims@.subrange(0, k as int), i, true)
                        && pre.lockups@[i]@.account_id == account_id@)),
                !transfer_succeeded ==> self.lockup_views() == refunded(
                    pre.lockup_views(),
                    lockup_claims@.subrange(0, k as int),
                ),
                !transfer_succeeded ==> forall|i: int|
                    0 <= i < pre.lockups@.len() ==> #[trigger] self.account_lockups@[i] == (
                    pre.account_lockups@[i] || (claims_mention(lockup_claims@.subrange(0, k as int), i, false)
                        && pre.lockups@[i]@.account_id == account_id@)),
                forall|i: int| 0 <= i < pre.lockups@.len() ==> #[trigger] self.lockups@[i]@.account_id == pre.lockups@[i]@.account_id,
            decreases n - k,
        {
            let c = lockup_claims[k];
            let i = c.index as usize;
            let ghost sub = lockup_claims@.subrange(0, k as int);
            let ghost sub1 = lockup_claims@.subrange(0, k as int + 1);
            proof {
                assert(sub1.drop_last() =~= sub);
                assert(sub1.last() == c);
                lemma_claims_total_prefix(lockup_claims@, k as int + 1);
            }
            let ghost before = *self;
            if transfer_succeeded {
                total = total + c.claim_amount;
                if c.is_final && i < self.lockups.len() && self.lockups[i].account_id == *account_id {
                    self.internal_save_account_lockup(i, false);
                }
            } else if i < self.lockups.len() {
                if self.lockups[i].claimed_balance >= c.claim_amount {
                    let mut lockup = self.lockups[i].clone();
                    lockup.claimed_balance = lockup.claimed_balance - c.claim_amount;
                    self.lockups.set(i, lockup);
                }
                if self.lockups[i].account_id == *account_id {
                    self.internal_save_account_lockup(i, true);
                }
            }
            proof {
                assert forall|x: int| 0 <= x < pre.lockups@.len() implies (claims_mention(sub1, x, true) <==> claims_mention(sub, x, true) || (x == c.index && c.is_final)) && (claims_mention(sub1, x, false) <==> claims_mention(sub, x, false) || x == c.index) by {
                    if claims_mention(sub, x, false) {
                        let j = choose|j: int| 0 <= j < sub.len() && #[trigger] sub[j].index == x && (sub[j].is_final || !false);
                        assert(sub1[j] == sub[j]);
                    }
                    if claims_mention(sub, x, true) {
                        let j = choose|j: int| 0 <= j < sub.len() && #[trigger] sub[j].index == x && (sub[j].is_final || !true);
                        assert(sub1[j] == sub[j]);
                    }
                    if x == c.index {
                        assert(sub1[k as int].index == x);
                    }
                    if claims_mention(sub1, x, false) {
                        let j = choose|j: int| 0 <= j < sub1.len() && #[trigger] sub1[j].index == x && (sub1[j].is_final || !false);
                        if j < k {
                            assert(sub[j] == sub1[j]);
                        }
                    }
                    if claims_mention(sub1, x, true) {
                        let j = choose|j: int| 0 <= j < sub1.len() && #[trigger] sub1[j].index == x && (sub1[j].is_final || !true);
                        if j < k {
                            assert(sub[j] == sub1[j]);
                        }
                    }
                }
                if !transfer_succeeded {
                    assert(self.lockup_views() =~= refund_one(before.lockup_views(), c));
                }
                assert forall|x: int| 0 <= x < self.lockups@.len() implies lockup_wf(#[trigger] self.lockups@[x]@) by {
                    assert(lockup_wf(before.lockups@[x]@));
                    assert(before.lockup_views()[x] == before.lockups@[x]@);
                    assert(self.lockup_views()[x] == self.lockups@[x]@);
                }
                assert forall|g: DraftGroupIndex| #[trigger] self.draft_groups@.contains_key(g) implies self.group_wf(g) by {
                    assert(before.group_wf(g));
                }
                assert forall|d: DraftIndex| #[trigger] self.drafts@.contains_key(d) implies self.draft_wf(d) by {
                    assert(before.draft_wf(d));
                }
                assert forall|x: int| 0 <= x < pre.lockups@.len() implies #[trigger] self.lockups@[x]@.account_id == pre.lockups@[x]@.account_id by {
                    assert(before.lockups@[x]@.account_id == pre.lockups@[x]@.account_id);
                    assert(before.lockup_views()[x] == before.lockups@[x]@);
                    assert(self.lockup_views()[x] == self.lockups@[x]@);
                }
            }
            k = k + 1;
        }
        proof {
            assert(lockup_claims@.subrange(0, n as int) =~= lockup_claims@);
        }
        total
    }
}

proof fn lemma_claims_total_prefix(claims: Seq<LockupClaim>, k: int)
    requires
        0 <= k <= claims.len(),
    ensures
        claims_total(claims.subrange(0, k)) <= claims_total(claims),
        claims_total(claims.subrange(0, k)) >= 0,
    decreases claims.len(),
{
    if k < claims.len() {
        assert(claims.drop_last().subrange(0, k) =~= claims.subrange(0, k));
        lemma_claims_total_prefix(claims.drop_last(), k);
    } else {
        assert(claims.subrange(0, k) =~= claims);
        lemma_claims_total_nonneg(claims);
    }
}

proof fn lemma_claims_total_nonneg(claims: Seq<LockupClaim>)
    ensures
        claims_total(claims) >= 0,
    decreases claims.len(),
{
    if claims.len() > 0 {
        lemma_claims_total_nonneg(claims.drop_last());
    }
}

proof fn lemma_plan_sum_prefix_bound(plan: Seq<(LockupIndex, Balance)>, k: int)
    requires
        0 <= k <= plan.len(),
    ensures
        plan_sum(plan.subrange(0, k)) <= plan_sum(plan),
    decreases plan.len(),
{
    if k < plan.len() {
        assert(plan.drop_last().subrange(0, k) =~= plan.subrange(0, k));
        lemma_plan_sum_prefix_bound(plan.drop_last(), k);
    } else {
        assert(plan.subrange(0, k) =~= plan);
    }
}

} // verus!
