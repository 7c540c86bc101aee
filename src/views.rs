//! Read-only projections of the ledger, with the balances that depend on
//! the time of the query computed at that time.

use crate::draft::{Draft, DraftGroupIndex, DraftIndex};
use crate::ledger::Contract;
use crate::lockup::{Lockup, LockupCreate, LockupIndex, claimable, lockup_wf};
use crate::schedule::{Schedule, total_of, unlocked_at, valid_checkpoints};
use crate::termination::{TerminationConfig, VestingConditions};
use crate::{AccountId, Balance, CryptoHash, TimestampSec};
use vstd::prelude::*;

verus! {

broadcast use vstd::std_specs::hash::group_hash_axioms;

#[derive(Debug)]
pub struct LockupView {
    pub account_id: AccountId,
    pub schedule: Schedule,
    pub claimed_balance: Balance,
    pub termination_config: Option<TerminationConfig>,
    pub total_balance: Balance,
    /// Unlocked at `timestamp` and not yet claimed.
    pub unclaimed_balance: Balance,
    /// The time of the query.
    pub timestamp: TimestampSec,
}

impl LockupView {
    /// The lockup as seen at `now`.
    pub fn new(lockup: &Lockup, now: TimestampSec) -> (r: LockupView)
        requires
            lockup_wf(lockup@),
        ensures
            r.account_id@ == lockup@.account_id,
            r.schedule@ == lockup@.schedule,
            r.claimed_balance == lockup@.claimed_balance,
            r.total_balance == total_of(lockup@.schedule),
            r.unclaimed_balance == claimable(lockup@, now as int),
            r.timestamp == now,
    {
        let unlocked = lockup.schedule.unlocked_balance(now);
        LockupView {
            account_id: lockup.account_id.clone(),
            schedule: lockup.schedule.clone(),
            claimed_balance: lockup.claimed_balance,
            termination_config: match &lockup.termination_config {
                Some(c) => Some(c.clone()),
                None => None,
            },
            total_balance: lockup.schedule.total_balance(),
            unclaimed_balance: if unlocked >= lockup.claimed_balance {
                unlocked - lockup.claimed_balance
            } else {
                0
            },
            timestamp: now,
        }
    }
}

#[derive(Debug)]
pub struct LockupCreateView {
    pub account_id: AccountId,
    pub schedule: Schedule,
    pub vesting_schedule: Option<VestingConditions>,
    pub claimed_balance: Balance,
    pub total_balance: Balance,
    /// Unlocked at `timestamp`.
    pub unclaimed_balance: Balance,
    /// The time of the query.
    pub timestamp: TimestampSec,
}

impl LockupCreateView {
    /// The grant as seen at `now`: nothing of it is claimed yet.
    pub fn new(lockup_create: &LockupCreate, now: TimestampSec) -> (r: LockupCreateView)
        requires
            valid_checkpoints(lockup_create@.schedule),
        ensures
            r.account_id@ == lockup_create@.account_id,
            r.schedule@ == lockup_create@.schedule,
            r.claimed_balance == 0,
            r.total_balance == total_of(lockup_create@.schedule),
            r.unclaimed_balance == unlocked_at(lockup_create@.schedule, now as int),
            r.timestamp == now,
    {
        LockupCreateView {
            account_id: lockup_create.account_id.clone(),
            schedule: lockup_create.schedule.clone(),
            vesting_schedule: match &lockup_create.vesting_schedule {
                Some(v) => Some(v.clone()),
                None => None,
            },
            claimed_balance: 0,
            total_balance: lockup_create.schedule.total_balance(),
            unclaimed_balance: lockup_create.schedule.unlocked_balance(now),
            timestamp: now,
        }
    }
}

#[derive(Debug)]
pub struct DraftGroupView {
    pub total_amount: Balance,
    pub payer_id: Option<AccountId>,
    /// The group's drafts, in increasing order.
    pub draft_indices: Vec<DraftIndex>,
    pub discarded: bool,
    pub funded: bool,
}

#[derive(Debug)]
pub struct DraftView {
    pub draft_group_id: DraftGroupIndex,
    pub lockup_create: LockupCreateView,
}

impl Contract {
    pub fn get_token_account_id(&self) -> (r: AccountId)
        ensures
            r@ == self.token_account_id@,
    {
        self.token_account_id.clone()
    }

    pub fn get_num_lockups(&self) -> (r: u32)
        requires
            self.wf(),
        ensures
            r == self.lockups@.len(),
    {
        self.lockups.len() as u32
    }

    /// Lockup `index` as seen at `now`, if there is one.
    pub fn get_lockup(&self, index: LockupIndex, now: TimestampSec) -> (r: Option<LockupView>)
        requires
            self.wf(),
        ensures
            r is Some <==> index < self.lockups@.len(),
            r is Some ==> r->Some_0.account_id@ == self.lockups@[index as int]@.account_id
                && r->Some_0.claimed_balance == self.lockups@[index as int]@.claimed_balance
                && r->Some_0.total_balance == total_of(self.lockups@[index as int]@.schedule)
                && r->Some_0.unclaimed_balance == claimable(self.lockups@[index as int]@, now as int),
    {
        let i = index as usize;
        if i < self.lockups.len() {
            Some(LockupView::new(&self.lockups[i], now))
        } else {
            None
        }
    }

    /// The lockups of `indices` that exist, with their indices, as seen at
    /// `now`.
    pub fn get_lockups(&self, indices: Vec<LockupIndex>, now: TimestampSec) -> (r: Vec<(LockupIndex, LockupView)>)
        requires
            self.wf(),
        ensures
            forall|k: int|
                0 <= k < r@.len() ==> (#[trigger] r@[k]).0 < self.lockups@.len() && indices@.contains(
                    r@[k].0,
                ),
            forall|j: int|
                0 <= j < indices@.len() && #[trigger] indices@[j] < self.lockups@.len() ==> exists|k: int|
                    0 <= k < r@.len() && r@[k].0 == indices@[j],
    {
        let mut out: Vec<(LockupIndex, LockupView)> = Vec::new();
        let mut k: usize = 0;
        while k < indices.len()
            invariant
                self.wf(),
                k <= indices@.len(),
                forall|j: int|
                    0 <= j < out@.len() ==> (#[trigger] out@[j]).0 < self.lockups@.len()
                        && indices@.contains(out@[j].0),
                forall|j: int|
                    0 <= j < k && #[trigger] indices@[j] < self.lockups@.len() ==> exists|x: int|
                        0 <= x < out@.len() && out@[x].0 == indices@[j],
            decreases indices@.len() - k,
        {
            let index = indices[k];
            let ghost before = out@;
            match self.get_lockup(index, now) {
                Some(v) => {
                    out.push((index, v));
                    proof {
                        assert(indices@[k as int] == index);
                        assert(out@[before.len() as int].0 == index);
                        assert forall|j: int|
                            0 <= j < k + 1 && #[trigger] indices@[j] < self.lockups@.len() implies exists|x: int|
                            0 <= x < out@.len() && out@[x].0 == indices@[j] by {
                            if j < k {
                                let x = choose|x: int| 0 <= x < before.len() && before[x].0 == indices@[j];
                                assert(out@[x].0 == indices@[j]);
                            } else {
                                assert(out@[before.len() as int].0 == indices@[j]);
                            }
                        }
                    }
                },
                None => {},
            }
            k = k + 1;
        }
        out
    }

    /// The lockups listed under `account_id`, in index order, as seen at
    /// `now`.
    pub fn get_account_lockups(&self, account_id: &AccountId, now: TimestampSec) -> (r: Vec<
        (LockupIndex, LockupView),
    >)
        requires
            self.wf(),
        ensures
            forall|k: int|
                0 <= k < r@.len() ==> self.account_lockup_ids(account_id@).contains(#[trigger] r@[k].0),
            forall|i: LockupIndex|
                #[trigger] self.account_lockup_ids(account_id@).contains(i) ==> exists|k: int|
                    0 <= k < r@.len() && r@[k].0 == i,
    {
        let mut out: Vec<(LockupIndex, LockupView)> = Vec::new();
        let mut i: usize = 0;
        while i < self.lockups.len()
            invariant
                self.wf(),
                i <= self.lockups@.len(),
                forall|k: int|
                    0 <= k < out@.len() ==> self.account_lockup_ids(account_id@).contains(
                        #[trigger] out@[k].0,
                    ),
                forall|j: LockupIndex|
                    j < i && #[trigger] self.account_lockup_ids(account_id@).contains(j) ==> exists|k: int|
                        0 <= k < out@.len() && out@[k].0 == j,
            decreases self.lockups@.len() - i,
        {
            let ghost before = out@;
            if self.account_lockups[i] && self.lockups[i].account_id == *account_id {
                let v = LockupView::new(&self.lockups[i], now);
                out.push((i as LockupIndex, v));
                proof {
                    assert forall|j: LockupIndex|
                        j < i + 1 && #[trigger] self.account_lockup_ids(account_id@).contains(j) implies exists|k: int|
                        0 <= k < out@.len() && out@[k].0 == j by {
                        if j < i {
                            let k = choose|k: int| 0 <= k < before.len() && before[k].0 == j;
                            assert(out@[k].0 == j);
                        } else {
                            assert(out@[before.len() as int].0 == j);
                        }
                    }
                }
            } else {
                proof {
                    assert forall|j: LockupIndex|
                        j < i + 1 && #[trigger] self.account_lockup_ids(account_id@).contains(j) implies exists|k: int|
                        0 <= k < out@.len() && out@[k].0 == j by {
                        if j == i {
                            assert(!self.account_lockup_ids(account_id@).contains(j));
                        }
                    }
                }
            }
            i = i + 1;
        }
        out
    }

    /// The lockups from index `from_index` up to (not including) index
    /// `limit`, by default all of them, as seen at `now`.
    pub fn get_lockups_paged(
        &self,
        from_index: Option<LockupIndex>,
        limit: Option<LockupIndex>,
        now: TimestampSec,
    ) -> (r: Vec<(LockupIndex, LockupView)>)
        requires
            self.wf(),
        ensures
            ({
                let from = match from_index {
                    Some(f) => f as int,
                    None => 0,
                };
                let end = match limit {
                    Some(l) => if l < self.lockups@.len() {
                        l as int
                    } else {
                        self.lockups@.len() as int
                    },
                    None => self.lockups@.len() as int,
                };
                &&& r@.len() == if from < end {
                    end - from
                } else {
                    0
                }
                &&& forall|k: int| 0 <= k < r@.len() ==> (#[trigger] r@[k]).0 == from + k
            }),
    {
        let from = match from_index {
            Some(f) => f,
            None => 0,
        };
        let n = self.get_num_lockups();
        let end = match limit {
            Some(l) => if l < n {
                l
            } else {
                n
            },
            None => n,
        };
        let mut out: Vec<(LockupIndex, LockupView)> = Vec::new();
        let mut i = from;
        while i < end
            invariant
                self.wf(),
                end <= self.lockups@.len(),
                from <= i,
                i < end ==> out@.len() == i - from,
                i >= end ==> out@.len() == if from < end {
                    end - from
                } else {
                    0
                },
                forall|k: int| 0 <= k < out@.len() ==> (#[trigger] out@[k]).0 == from + k,
            decreases end - i,
        {
            out.push((i, LockupView::new(&self.lockups[i as usize], now)));
            i = i + 1;
        }
        out
    }

    pub fn get_deposit_whitelist(&self) -> (r: Vec<AccountId>)
        ensures
            r@.len() == self.deposit_whitelist@.len(),
            forall|i: int| 0 <= i < r@.len() ==> #[trigger] r@[i]@ == self.deposit_whitelist@[i]@,
    {
        crate::ledger::copy_accounts(&self.deposit_whitelist)
    }

    pub fn get_draft_operators_whitelist(&self) -> (r: Vec<AccountId>)
        ensures
            r@.len() == self.draft_operators_whitelist@.len(),
            forall|i: int|
                0 <= i < r@.len() ==> #[trigger] r@[i]@ == self.draft_operators_whitelist@[i]@,
    {
        crate::ledger::copy_accounts(&self.draft_operators_whitelist)
    }

    /// The commitment to `schedule`.
    pub fn hash_schedule(&self, schedule: Schedule) -> (r: CryptoHash)
        requires
            schedule@.len() <= u32::MAX,
        ensures
            r@ == crate::schedule::sha256_of(crate::schedule::schedule_bytes(schedule@)),
    {
        schedule.hash()
    }

    /// Accepts a schedule with total `total_balance` and, if given, a
    /// termination schedule with the same total that is never behind it.
    pub fn validate_schedule(
        &self,
        schedule: Schedule,
        total_balance: Balance,
        termination_schedule: Option<Schedule>,
    ) -> (r: Result<(), crate::error::LockupError>)
        ensures
            r is Ok <==> valid_checkpoints(schedule@) && total_of(schedule@) == total_balance
                && match termination_schedule {
                Some(t) => valid_checkpoints(t@) && total_of(t@) == total_balance
                    && crate::schedule::lockup_behind(schedule@, t@),
                None => true,
            },
    {
        if let Err(e) = schedule.assert_valid(total_balance) {
            return Err(e);
        }
        match &termination_schedule {
            Some(t) => {
                if let Err(e) = t.assert_valid(total_balance) {
                    return Err(e);
                }
                schedule.assert_valid_termination_schedule(t)
            },
            None => Ok(()),
        }
    }

    pub fn get_next_draft_group_id(&self) -> (r: DraftGroupIndex)
        ensures
            r == self.next_draft_group_id,
    {
        self.next_draft_group_id
    }

    pub fn get_next_draft_id(&self) -> (r: DraftIndex)
        ensures
            r == self.next_draft_id,
    {
        self.next_draft_id
    }

    pub fn get_num_draft_groups(&self) -> (r: u32)
        requires
            self.wf(),
        ensures
            r == self.draft_groups@.len(),
    {
        proof {
            assert(self.draft_groups@.dom().subset_of(
                Set::new(|g: DraftGroupIndex| g < self.next_draft_group_id),
            ));
            lemma_ids_below_len(self.draft_groups@.dom(), self.next_draft_group_id);
        }
        self.draft_groups.len() as u32
    }

    /// Draft group `index`, if there is one, with its drafts in increasing
    /// order.
    pub fn get_draft_group(&self, index: DraftGroupIndex) -> (r: Option<DraftGroupView>)
        requires
            self.wf(),
        ensures
            r is Some <==> self.draft_groups@.contains_key(index),
            r is Some ==> {
                let g = self.draft_groups@[index]@;
                let v = r->Some_0;
                &&& v.total_amount == g.total_amount
                &&& v.discarded == g.discarded
                &&& v.funded == g.payer_id is Some
                &&& forall|d: DraftIndex| #[trigger] g.draft_indices.contains(d) <==> v.draft_indices@.contains(d)
            },
    {
        let group = match self.draft_groups.get(&index) {
            Some(g) => g,
            None => {
                return None;
            },
        };
        assert(self.group_wf(index));
        let mut ids: Vec<DraftIndex> = Vec::new();
        let mut d: DraftIndex = 0;
        while d < self.next_draft_id
            invariant
                self.wf(),
                self.draft_groups@.contains_key(index),
                *group == self.draft_groups@[index],
                forall|x: DraftIndex| #[trigger] ids@.contains(x) <==> x < d && group@.draft_indices.contains(x),
            decreases self.next_draft_id - d,
        {
            let ghost before = ids@;
            if group.draft_indices.contains(&d) {
                ids.push(d);
                proof {
                    assert forall|x: DraftIndex| #[trigger] ids@.contains(x) <==> x < d + 1 && group@.draft_indices.contains(x) by {
                        if before.contains(x) {
                            let k = choose|k: int| 0 <= k < before.len() && before[k] == x;
                            assert(ids@[k] == x);
                        }
                        if x == d {
                            assert(ids@[before.len() as int] == x);
                        }
                        if ids@.contains(x) {
                            let k = choose|k: int| 0 <= k < ids@.len() && ids@[k] == x;
                            if k < before.len() {
                                assert(before[k] == x);
                            }
                        }
                    }
                }
            }
            d = d + 1;
        }
        proof {
            assert forall|x: DraftIndex| #[trigger] group@.draft_indices.contains(x) implies x < self.next_draft_id by {
                assert(self.draft_wf(x));
            }
        }
        Some(
            DraftGroupView {
                total_amount: group.total_amount,
                payer_id: match &group.payer_id {
                    Some(p) => Some(p.clone()),
                    None => None,
                },
                draft_indices: ids,
                discarded: group.discarded,
                funded: group.payer_id.is_some(),
            },
        )
    }

    /// The existing draft groups, in increasing order of index, from
    /// position `from_index` up to (not including) position `to_index`.
    pub fn get_draft_groups_paged(
        &self,
        from_index: Option<u32>,
        to_index: Option<u32>,
    ) -> (r: Vec<(DraftGroupIndex, DraftGroupView)>)
        requires
            self.wf(),
        ensures
            forall|a: int, b: int| 0 <= a < b < r@.len() ==> #[trigger] r@[a].0 < #[trigger] r@[b].0,
            forall|g: DraftGroupIndex|
                #![trigger self.draft_groups@.contains_key(g)]
                (exists|k: int| 0 <= k < r@.len() && r@[k].0 == g) <==> self.draft_groups@.contains_key(g)
                    && in_page(groups_before(*self, g as int), from_index, to_index),
    {
        let from = match from_index {
            Some(f) => f,
            None => 0,
        };
        let mut out: Vec<(DraftGroupIndex, DraftGroupView)> = Vec::new();
        let mut position: u32 = 0;
        let mut g: DraftGroupIndex = 0;
        while g < self.next_draft_group_id
            invariant
                self.wf(),
                from == match from_index {
                    Some(f) => f,
                    None => 0,
                },
                position == groups_before(*self, g as int),
                forall|k: int| 0 <= k < out@.len() ==> #[trigger] out@[k].0 < g,
                forall|a: int, b: int| 0 <= a < b < out@.len() ==> #[trigger] out@[a].0 < #[trigger] out@[b].0,
                forall|h: DraftGroupIndex|
                    h < g ==> ((exists|k: int| 0 <= k < out@.len() && out@[k].0 == h) <==> (
                    #[trigger] self.draft_groups@.contains_key(h) && in_page(
                        groups_before(*self, h as int),
                        from_index,
                        to_index,
                    ))),
            decreases self.next_draft_group_id - g,
        {
            let ghost before = out@;
            proof {
                lemma_groups_before_bound(*self, g as int);
            }
            match self.get_draft_group(g) {
                Some(view) => {
                    let in_this_page = position >= from && match to_index {
                        Some(t) => position < t,
                        None => true,
                    };
                    assert(self.draft_groups@.contains_key(g));
                    assert(in_this_page == in_page(position as int, from_index, to_index));
                    if in_this_page {
                        out.push((g, view));
                    }
                    position = position + 1;
                },
                None => {
                    assert(!self.draft_groups@.contains_key(g));
                },
            }
            proof {
                assert forall|h: DraftGroupIndex|
                    h < g + 1 implies ((exists|k: int| 0 <= k < out@.len() && out@[k].0 == h) <==> (
                    #[trigger] self.draft_groups@.contains_key(h) && in_page(
                        groups_before(*self, h as int),
                        from_index,
                        to_index,
                    ))) by {
                    if h < g {
                        if exists|k: int| 0 <= k < out@.len() && out@[k].0 == h {
                            let k = choose|k: int| 0 <= k < out@.len() && out@[k].0 == h;
                            if k == before.len() {
                                assert(out@[k].0 == g);
                            } else {
                                assert(before[k].0 == h);
                            }
                        }
                        if exists|k: int| 0 <= k < before.len() && before[k].0 == h {
                            let k = choose|k: int| 0 <= k < before.len() && before[k].0 == h;
                            assert(out@[k].0 == h);
                        }
                    } else {
                        assert(h == g);
                        let found = self.draft_groups@.contains_key(h) && in_page(
                            groups_before(*self, h as int),
                            from_index,
                            to_index,
                        );
                        assert(found ==> out@.len() == before.len() + 1);
                        assert(!found ==> out@ == before);
                        if out@.len() > before.len() {
                            assert(out@[before.len() as int].0 == h);
                        }
                        if exists|k: int| 0 <= k < out@.len() && out@[k].0 == h {
                            let k = choose|k: int| 0 <= k < out@.len() && out@[k].0 == h;
                            if k < before.len() {
                                assert(before[k].0 < g);
                            }
                        }
                    }
                }
            }
            g = g + 1;
        }
        proof {
            assert forall|h: DraftGroupIndex| #[trigger] self.draft_groups@.contains_key(h) implies h
                < self.next_draft_group_id by {
                assert(self.group_wf(h));
            }
        }
        out
    }

    /// Draft `index` as seen at `now`, if there is one.
    pub fn get_draft(&self, index: DraftIndex, now: TimestampSec) -> (r: Option<DraftView>)
        requires
            self.wf(),
        ensures
            r is Some <==> self.drafts@.contains_key(index),
            r is Some ==> r->Some_0.draft_group_id == self.drafts@[index].draft_group_id
                && r->Some_0.lockup_create.total_balance == crate::draft::draft_total(self.drafts@[index]@),
    {
        match self.drafts.get(&index) {
            Some(draft) => {
                assert(self.draft_wf(index));
                Some(
                    DraftView {
                        draft_group_id: draft.draft_group_id,
                        lockup_create: LockupCreateView::new(&draft.lockup_create, now),
                    },
                )
            },
            None => None,
        }
    }

    /// The drafts of `indices` that exist, with their indices, as seen at
    /// `now`.
    pub fn get_drafts(&self, indices: Vec<DraftIndex>, now: TimestampSec) -> (r: Vec<(DraftIndex, DraftView)>)
        requires
            self.wf(),
        ensures
            forall|k: int| 0 <= k < r@.len() ==> self.drafts@.contains_key(#[trigger] r@[k].0),
    {
        let mut out: Vec<(DraftIndex, DraftView)> = Vec::new();
        let mut k: usize = 0;
        while k < indices.len()
            invariant
                self.wf(),
                k <= indices@.len(),
                forall|j: int| 0 <= j < out@.len() ==> self.drafts@.contains_key(#[trigger] out@[j].0),
            decreases indices@.len() - k,
        {
            let index = indices[k];
            match self.get_draft(index, now) {
                Some(v) => out.push((index, v)),
                None => {},
            }
            k = k + 1;
        }
        out
    }
}

/// How many draft groups of `c` have an index below `g`.
pub open spec fn groups_before(c: Contract, g: int) -> int
    decreases g,
{
    if g <= 0 {
        0
    } else {
        groups_before(c, g - 1) + if c.draft_groups@.contains_key((g - 1) as DraftGroupIndex) {
            1int
        } else {
            0
        }
    }
}

/// Position `p` lies from `from` (default the start) up to, not including,
/// `to` (default the end).
pub open spec fn in_page(p: int, from: Option<u32>, to: Option<u32>) -> bool {
    &&& p >= match from {
        Some(f) => f as int,
        None => 0,
    }
    &&& match to {
        Some(t) => p < t,
        None => true,
    }
}

proof fn lemma_groups_before_bound(c: Contract, g: int)
    requires
        0 <= g,
    ensures
        0 <= groups_before(c, g) <= g,
    decreases g,
{
    if g > 0 {
        lemma_groups_before_bound(c, g - 1);
    }
}

/// A set of indices below `n` has at most `n` members.
proof fn lemma_ids_below_len(s: Set<DraftGroupIndex>, n: DraftGroupIndex)
    requires
        forall|g: DraftGroupIndex| #[trigger] s.contains(g) ==> g < n,
    ensures
        s.finite(),
        s.len() <= n,
{
    let all = Set::new(|g: DraftGroupIndex| g < n);
    let ints = vstd::set_lib::set_int_range(0, n as int);
    let f = |i: int| i as DraftGroupIndex;
    assert(ints.map(f) =~= all) by {
        assert forall|g: DraftGroupIndex| all.contains(g) implies ints.map(f).contains(g) by {
            assert(ints.contains(g as int) && f(g as int) == g);
        }
    }
    vstd::set_lib::lemma_int_range(0, n as int);
    vstd::set_lib::lemma_map_size_bound(ints, all, f);
    assert(s.subset_of(all));
    vstd::set_lib::lemma_len_subset(s, all);
}

} // verus!
