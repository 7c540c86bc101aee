//! The ledger: every lockup, draft and draft group, what keeps them
//! consistent, and the account whitelists. The operations on it are in
//! `drafting`, `claims` and `grants`.
//!
//! Operations that hand tokens to another party work in two steps. The first
//! step applies the accounting at once and says what to transfer; once the
//! transfer is known to have succeeded or failed, the second step keeps the
//! accounting or compensates for it.

use crate::draft::{Draft, DraftGroup, DraftGroupIndex, DraftIndex, draft_ok, draft_total};
use crate::error::LockupError;
use crate::lockup::{Lockup, LockupIndex, LockupModel, lockup_wf};
use crate::AccountId;
use std::collections::HashMap;
use vstd::prelude::*;

verus! {

broadcast use vstd::std_specs::hash::group_hash_axioms;

pub struct Contract {
    /// The token that this ledger holds.
    pub token_account_id: AccountId,
    /// Every lockup ever created, by index. Indices are never reused.
    pub lockups: Vec<Lockup>,
    /// For each lockup, whether it is listed under its account as one that
    /// may still have something to claim.
    pub account_lockups: Vec<bool>,
    /// Accounts that may create and terminate lockups, fund draft groups, and
    /// manage both whitelists and drafts.
    pub deposit_whitelist: Vec<AccountId>,
    /// Accounts that may manage drafts and draft groups.
    pub draft_operators_whitelist: Vec<AccountId>,
    pub next_draft_id: DraftIndex,
    pub drafts: HashMap<DraftIndex, Draft>,
    pub next_draft_group_id: DraftGroupIndex,
    pub draft_groups: HashMap<DraftGroupIndex, DraftGroup>,
}

/// Whether `a` is on the list.
pub open spec fn listed_in(list: Seq<AccountId>, a: Seq<char>) -> bool {
    exists|i: int| 0 <= i < list.len() && #[trigger] list[i]@ == a
}

/// No account is on the list twice.
pub open spec fn no_repeats(list: Seq<AccountId>) -> bool {
    forall|i: int, j: int| 0 <= i < j < list.len() ==> #[trigger] list[i]@ != #[trigger] list[j]@
}

/// Adds the balance of draft `id` to a running sum.
pub open spec fn add_draft_total(drafts: Map<DraftIndex, Draft>) -> spec_fn(int, DraftIndex) -> int {
    |acc: int, id: DraftIndex| acc + draft_total(drafts[id]@)
}

/// The sum of the balances of the drafts `ids` in `drafts`.
pub open spec fn group_sum(ids: Set<DraftIndex>, drafts: Map<DraftIndex, Draft>) -> int {
    ids.fold(0int, add_draft_total(drafts))
}

/// In a consistent ledger, the total of every draft group is the sum of
/// the balances of its drafts.
pub proof fn lemma_group_total_is_sum(c: Contract, g: DraftGroupIndex)
    requires
        c.wf(),
        c.draft_groups@.contains_key(g),
    ensures
        c.draft_groups@[g]@.total_amount == group_sum(c.draft_groups@[g]@.draft_indices, c.drafts@),
{
    assert(c.group_wf(g));
}

impl Contract {
    pub open spec fn lockup_at(&self, i: int) -> LockupModel {
        self.lockups@[i]@
    }

    /// The indices listed under account `a`.
    pub open spec fn account_lockup_ids(&self, a: Seq<char>) -> Set<LockupIndex> {
        Set::new(
            |i: LockupIndex|
                i < self.lockups@.len() && self.lockups@[i as int]@.account_id == a
                    && self.account_lockups@[i as int],
        )
    }

    pub open spec fn group_wf(&self, g: DraftGroupIndex) -> bool {
        let group = self.draft_groups@[g];
        &&& g < self.next_draft_group_id
        &&& group@.draft_indices.finite()
        &&& forall|d: DraftIndex|
            #[trigger] group@.draft_indices.contains(d) ==> self.drafts@.contains_key(d)
                && self.drafts@[d].draft_group_id == g
        &&& group@.total_amount == group_sum(group@.draft_indices, self.drafts@)
        &&& !(group@.discarded && group@.payer_id is Some)
    }

    pub open spec fn draft_wf(&self, d: DraftIndex) -> bool {
        let draft = self.drafts@[d];
        &&& d < self.next_draft_id
        &&& draft_ok(draft@)
        &&& self.draft_groups@.contains_key(draft.draft_group_id)
        &&& self.draft_groups@[draft.draft_group_id]@.draft_indices.contains(d)
    }

    /// The ledger is consistent: every lockup is, each group's total is the
    /// sum of its drafts, and drafts and groups point at each other.
    pub open spec fn wf(&self) -> bool {
        &&& self.lockups@.len() == self.account_lockups@.len()
        &&& self.lockups@.len() <= u32::MAX
        &&& forall|i: int| 0 <= i < self.lockups@.len() ==> lockup_wf(#[trigger] self.lockups@[i]@)
        &&& forall|g: DraftGroupIndex| #[trigger] self.draft_groups@.contains_key(g) ==> self.group_wf(g)
        &&& forall|d: DraftIndex| #[trigger] self.drafts@.contains_key(d) ==> self.draft_wf(d)
        &&& no_repeats(self.deposit_whitelist@)
        &&& no_repeats(self.draft_operators_whitelist@)
    }

    /// A new ledger for the token `token_account_id`.
    pub fn new(
        token_account_id: AccountId,
        deposit_whitelist: Vec<AccountId>,
        draft_operators_whitelist: Option<Vec<AccountId>>,
    ) -> (r: Contract)
        ensures
            r.wf(),
            r.token_account_id@ == token_account_id@,
            r.lockups@.len() == 0,
            r.drafts@.len() == 0,
            r.draft_groups@.len() == 0,
            r.next_draft_id == 0,
            r.next_draft_group_id == 0,
            forall|a: Seq<char>|
                listed_in(r.deposit_whitelist@, a) <==> listed_in(deposit_whitelist@, a),
            forall|a: Seq<char>|
                listed_in(r.draft_operators_whitelist@, a) <==> match draft_operators_whitelist {
                    Some(list) => listed_in(list@, a),
                    None => false,
                },
    {
        let mut deposit: Vec<AccountId> = Vec::new();
        add_all(&mut deposit, &deposit_whitelist);
        let mut operators: Vec<AccountId> = Vec::new();
        match &draft_operators_whitelist {
            Some(list) => add_all(&mut operators, list),
            None => {},
        }
        Contract {
            token_account_id,
            lockups: Vec::new(),
            account_lockups: Vec::new(),
            deposit_whitelist: deposit,
            draft_operators_whitelist: operators,
            next_draft_id: 0,
            drafts: HashMap::new(),
            next_draft_group_id: 0,
            draft_groups: HashMap::new(),
        }
    }
}

impl Contract {
    /// Drafts and draft groups may be managed by draft operators and by
    /// accounts on the deposit whitelist.
    pub open spec fn is_draft_operator(&self, a: Seq<char>) -> bool {
        listed_in(self.draft_operators_whitelist@, a) || listed_in(self.deposit_whitelist@, a)
    }

    pub(crate) fn check_draft_operator(&self, a: &AccountId) -> (r: Result<(), LockupError>)
        ensures
            r is Ok <==> self.is_draft_operator(a@),
            r is Err ==> r == Err::<(), LockupError>(LockupError::NotAuthorized),
    {
        if contains_account(&self.draft_operators_whitelist, a) || contains_account(
            &self.deposit_whitelist,
            a,
        ) {
            Ok(())
        } else {
            Err(LockupError::NotAuthorized)
        }
    }

    pub(crate) fn check_deposit_whitelist(&self, a: &AccountId) -> (r: Result<(), LockupError>)
        ensures
            r is Ok <==> listed_in(self.deposit_whitelist@, a@),
            r is Err ==> r == Err::<(), LockupError>(LockupError::NotAuthorized),
    {
        if contains_account(&self.deposit_whitelist, a) {
            Ok(())
        } else {
            Err(LockupError::NotAuthorized)
        }
    }

    /// Lists lockup `index` under its account, or takes it off the list. Every
    /// change of an account's list goes through here.
    pub(crate) fn internal_save_account_lockup(&mut self, index: usize, listed: bool)
        requires
            index < old(self).account_lockups@.len(),
        ensures
            final(self).account_lockups@ == old(self).account_lockups@.update(index as int, listed),
            final(self).lockups == old(self).lockups,
            final(self).drafts == old(self).drafts,
            final(self).draft_groups == old(self).draft_groups,
            final(self).next_draft_id == old(self).next_draft_id,
            final(self).next_draft_group_id == old(self).next_draft_group_id,
            final(self).deposit_whitelist == old(self).deposit_whitelist,
            final(self).draft_operators_whitelist == old(self).draft_operators_whitelist,
            final(self).token_account_id == old(self).token_account_id,
    {
        self.account_lockups.set(index, listed);
    }

    /// Stores a new lockup under the next index and lists it under its
    /// account.
    pub(crate) fn internal_add_lockup(&mut self, lockup: Lockup) -> (r: LockupIndex)
        requires
            old(self).wf(),
            lockup_wf(lockup@),
            old(self).lockups@.len() < u32::MAX,
        ensures
            final(self).wf(),
            r == old(self).lockups@.len(),
            final(self).lockups@ == old(self).lockups@.push(lockup),
            final(self).account_lockups@ == old(self).account_lockups@.push(true),
            final(self).drafts == old(self).drafts,
            final(self).draft_groups == old(self).draft_groups,
            final(self).next_draft_id == old(self).next_draft_id,
            final(self).next_draft_group_id == old(self).next_draft_group_id,
            final(self).deposit_whitelist == old(self).deposit_whitelist,
            final(self).draft_operators_whitelist == old(self).draft_operators_whitelist,
            final(self).token_account_id == old(self).token_account_id,
    {
        let index = self.lockups.len() as LockupIndex;
        self.lockups.push(lockup);
        self.account_lockups.push(true);
        proof {
            assert forall|g: DraftGroupIndex| #[trigger] self.draft_groups@.contains_key(g) implies self.group_wf(g) by {
                assert(old(self).group_wf(g));
            }
            assert forall|d: DraftIndex| #[trigger] self.drafts@.contains_key(d) implies self.draft_wf(d) by {
                assert(old(self).draft_wf(d));
            }
        }
        index
    }
}

impl Contract {
    /// Adds `account_ids` (or, when absent, `account_id`) to the deposit
    /// whitelist.
    pub fn add_to_deposit_whitelist(
        &mut self,
        caller: &AccountId,
        account_id: Option<AccountId>,
        account_ids: Option<Vec<AccountId>>,
    ) -> (r: Result<(), LockupError>)
        requires
            old(self).wf(),
        ensures
            final(self).wf(),
            r is Err ==> *final(self) == *old(self),
            r is Ok <==> listed_in(old(self).deposit_whitelist@, caller@) && (account_ids is Some
                || account_id is Some),
            !listed_in(old(self).deposit_whitelist@, caller@) ==> r == Err::<(), LockupError>(
                LockupError::NotAuthorized,
            ),
            r is Ok ==> forall|a: Seq<char>|
                #[trigger] listed_in(final(self).deposit_whitelist@, a) <==> listed_in(
                    old(self).deposit_whitelist@,
                    a,
                ) || match account_ids {
                    Some(list) => listed_in(list@, a),
                    None => account_id.unwrap()@ == a,
                },
    {
        if let Err(e) = self.check_deposit_whitelist(caller) {
            return Err(e);
        }
        let accounts = match account_ids {
            Some(list) => list,
            None => match account_id {
                Some(a) => {
                    let mut v: Vec<AccountId> = Vec::new();
                    v.push(a);
                    proof {
                        assert forall|x: Seq<char>| listed_in(v@, x) <==> v@[0]@ == x by {
                            if v@[0]@ == x {
                                assert(listed_in(v@, x));
                            }
                        }
                    }
                    v
                },
                None => {
                    return Err(LockupError::AccountRequired);
                },
            },
        };
        let ghost before = *self;
        let mut list = copy_accounts(&self.deposit_whitelist);
        let ghost copied = list@;
        add_all(&mut list, &accounts);
        let ghost added = list@;
        self.deposit_whitelist = list;
        proof {
            assert(self.deposit_whitelist@ == added);
            assert forall|a: Seq<char>|
                #[trigger] listed_in(self.deposit_whitelist@, a) <==> listed_in(old(self).deposit_whitelist@, a) || listed_in(
                    accounts@,
                    a,
                ) by {
                if listed_in(copied, a) {
                    let j = choose|j: int| 0 <= j < copied.len() && #[trigger] copied[j]@ == a;
                    assert(added[j]@ == a);
                }
                assert(listed_in(added, a) <==> listed_in(copied, a) || listed_in(accounts@, a));
                assert(listed_in(copied, a) <==> listed_in(old(self).deposit_whitelist@, a));
            }
            assert forall|g: DraftGroupIndex| #[trigger] self.draft_groups@.contains_key(g) implies self.group_wf(g) by {
                assert(before.group_wf(g));
            }
            assert forall|d: DraftIndex| #[trigger] self.drafts@.contains_key(d) implies self.draft_wf(d) by {
                assert(before.draft_wf(d));
            }
        }
        Ok(())
    }

    /// Removes `account_ids` (or, when absent, `account_id`) from the
    /// deposit whitelist, which may not become empty.
    pub fn remove_from_deposit_whitelist(
        &mut self,
        caller: &AccountId,
        account_id: Option<AccountId>,
        account_ids: Option<Vec<AccountId>>,
    ) -> (r: Result<(), LockupError>)
        requires
            old(self).wf(),
        ensures
            final(self).wf(),
            r is Err ==> *final(self) == *old(self),
            !listed_in(old(self).deposit_whitelist@, caller@) ==> r == Err::<(), LockupError>(
                LockupError::NotAuthorized,
            ),
            r is Ok ==> final(self).deposit_whitelist@.len() > 0,
            r is Ok ==> forall|a: Seq<char>|
                listed_in(final(self).deposit_whitelist@, a) <==> listed_in(
                    old(self).deposit_whitelist@,
                    a,
                ) && !match account_ids {
                    Some(list) => listed_in(list@, a),
                    None => account_id.unwrap()@ == a,
                },
    {
        if let Err(e) = self.check_deposit_whitelist(caller) {
            return Err(e);
        }
        let accounts = match account_ids {
            Some(list) => list,
            None => match account_id {
                Some(a) => {
                    let mut v: Vec<AccountId> = Vec::new();
                    v.push(a);
                    proof {
                        assert forall|x: Seq<char>| listed_in(v@, x) <==> v@[0]@ == x by {
                            if v@[0]@ == x {
                                assert(listed_in(v@, x));
                            }
                        }
                    }
                    v
                },
                None => {
                    return Err(LockupError::AccountRequired);
                },
            },
        };
        let kept = without(&self.deposit_whitelist, &accounts);
        if kept.len() == 0 {
            return Err(LockupError::EmptyWhitelist);
        }
        let ghost before = *self;
        self.deposit_whitelist = kept;
        proof {
            assert forall|g: DraftGroupIndex| #[trigger] self.draft_groups@.contains_key(g) implies self.group_wf(g) by {
                assert(before.group_wf(g));
            }
            assert forall|d: DraftIndex| #[trigger] self.drafts@.contains_key(d) implies self.draft_wf(d) by {
                assert(before.draft_wf(d));
            }
        }
        Ok(())
    }

    /// Adds `account_ids` to the draft operators whitelist.
    pub fn add_to_draft_operators_whitelist(&mut self, caller: &AccountId, account_ids: Vec<AccountId>) -> (r:
        Result<(), LockupError>)
        requires
            old(self).wf(),
        ensures
            final(self).wf(),
            r is Err ==> *final(self) == *old(self),
            r is Ok <==> listed_in(old(self).deposit_whitelist@, caller@),
            r is Ok ==> forall|a: Seq<char>|
                #[trigger] listed_in(final(self).draft_operators_whitelist@, a) <==> listed_in(
                    old(self).draft_operators_whitelist@,
                    a,
                ) || listed_in(account_ids@, a),
    {
        if let Err(e) = self.check_deposit_whitelist(caller) {
            return Err(e);
        }
        let ghost before = *self;
        let mut list = copy_accounts(&self.draft_operators_whitelist);
        let ghost copied = list@;
        add_all(&mut list, &account_ids);
        let ghost added = list@;
        self.draft_operators_whitelist = list;
        proof {
            assert(self.draft_operators_whitelist@ == added);
            assert forall|a: Seq<char>|
                #[trigger] listed_in(self.draft_operators_whitelist@, a) <==> listed_in(old(self).draft_operators_whitelist@, a) || listed_in(
                    account_ids@,
                    a,
                ) by {
                if listed_in(copied, a) {
                    let j = choose|j: int| 0 <= j < copied.len() && #[trigger] copied[j]@ == a;
                    assert(added[j]@ == a);
                }
                assert(listed_in(added, a) <==> listed_in(copied, a) || listed_in(account_ids@, a));
                assert(listed_in(copied, a) <==> listed_in(old(self).draft_operators_whitelist@, a));
            }
            assert forall|g: DraftGroupIndex| #[trigger] self.draft_groups@.contains_key(g) implies self.group_wf(g) by {
                assert(before.group_wf(g));
            }
            assert forall|d: DraftIndex| #[trigger] self.drafts@.contains_key(d) implies self.draft_wf(d) by {
                assert(before.draft_wf(d));
            }
        }
        Ok(())
    }

    /// Removes `account_ids` from the draft operators whitelist.
    pub fn remove_from_draft_operators_whitelist(
        &mut self,
        caller: &AccountId,
        account_ids: Vec<AccountId>,
    ) -> (r: Result<(), LockupError>)
        requires
            old(self).wf(),
        ensures
            final(self).wf(),
            r is Err ==> *final(self) == *old(self),
            r is Ok <==> listed_in(old(self).deposit_whitelist@, caller@),
            r is Ok ==> forall|a: Seq<char>|
                listed_in(final(self).draft_operators_whitelist@, a) <==> listed_in(
                    old(self).draft_operators_whitelist@,
                    a,
                ) && !listed_in(account_ids@, a),
    {
        if let Err(e) = self.check_deposit_whitelist(caller) {
            return Err(e);
        }
        let kept = without(&self.draft_operators_whitelist, &account_ids);
        let ghost before = *self;
        self.draft_operators_whitelist = kept;
        proof {
            assert forall|g: DraftGroupIndex| #[trigger] self.draft_groups@.contains_key(g) implies self.group_wf(g) by {
                assert(before.group_wf(g));
            }
            assert forall|d: DraftIndex| #[trigger] self.drafts@.contains_key(d) implies self.draft_wf(d) by {
                assert(before.draft_wf(d));
            }
        }
        Ok(())
    }
}

/// The accounts of `list` that are not in `removed`, in order.
fn without(list: &Vec<AccountId>, removed: &Vec<AccountId>) -> (r: Vec<AccountId>)
    requires
        no_repeats(list@),
    ensures
        no_repeats(r@),
        forall|a: Seq<char>| listed_in(r@, a) <==> listed_in(list@, a) && !listed_in(removed@, a),
{
    let mut kept: Vec<AccountId> = Vec::new();
    let mut i: usize = 0;
    while i < list.len()
        invariant
            i <= list@.len(),
            no_repeats(list@),
            no_repeats(kept@),
            forall|a: Seq<char>|
                listed_in(kept@, a) <==> (exists|j: int| 0 <= j < i && #[trigger] list@[j]@ == a)
                    && !listed_in(removed@, a),
        decreases list@.len() - i,
    {
        let a = &list[i];
        let ghost before = kept@;
        if !contains_account(removed, a) {
            proof {
                assert forall|x: int| 0 <= x < before.len() implies before[x]@ != a@ by {
                    if before[x]@ == a@ {
                        assert(listed_in(before, a@));
                        let j = choose|j: int| 0 <= j < i && #[trigger] list@[j]@ == a@;
                        assert(list@[j]@ == list@[i as int]@);
                    }
                }
            }
            kept.push(a.clone());
        }
        proof {
            assert forall|x: Seq<char>|
                listed_in(kept@, x) <==> (exists|j: int| 0 <= j < i + 1 && #[trigger] list@[j]@ == x)
                    && !listed_in(removed@, x) by {
                let prior = exists|j: int| 0 <= j < i && #[trigger] list@[j]@ == x;
                assert(listed_in(before, x) <==> prior && !listed_in(removed@, x));
                if x == a@ {
                    assert(list@[i as int]@ == x);
                }
                if listed_in(kept@, x) {
                    let j = choose|j: int| 0 <= j < kept@.len() && #[trigger] kept@[j]@ == x;
                    if j < before.len() {
                        assert(before[j]@ == x);
                    }
                }
                if listed_in(before, x) {
                    let j = choose|j: int| 0 <= j < before.len() && #[trigger] before[j]@ == x;
                    assert(kept@[j]@ == x);
                }
                if x == a@ && !listed_in(removed@, x) {
                    assert(kept@[before.len() as int]@ == x);
                }
                if exists|j: int| 0 <= j < i + 1 && #[trigger] list@[j]@ == x {
                    let j = choose|j: int| 0 <= j < i + 1 && #[trigger] list@[j]@ == x;
                    if j < i {
                        assert(prior);
                    }
                }
            }
        }
        i = i + 1;
    }
    proof {
        assert forall|x: Seq<char>|
            (exists|j: int| 0 <= j < i && #[trigger] list@[j]@ == x) <==> listed_in(list@, x) by {}
    }
    kept
}

/// Whether `a` is on the list.
pub fn contains_account(list: &Vec<AccountId>, a: &AccountId) -> (r: bool)
    ensures
        r == listed_in(list@, a@),
{
    let mut i: usize = 0;
    while i < list.len()
        invariant
            i <= list@.len(),
            forall|j: int| 0 <= j < i ==> list@[j]@ != a@,
        decreases list@.len() - i,
    {
        if list[i] == *a {
            return true;
        }
        i = i + 1;
    }
    false
}

/// A copy of the list.
pub(crate) fn copy_accounts(list: &Vec<AccountId>) -> (r: Vec<AccountId>)
    ensures
        r@.len() == list@.len(),
        forall|i: int| 0 <= i < list@.len() ==> #[trigger] r@[i]@ == list@[i]@,
        forall|a: Seq<char>| listed_in(r@, a) <==> listed_in(list@, a),
        no_repeats(list@) ==> no_repeats(r@),
{
    let mut r: Vec<AccountId> = Vec::new();
    let mut i: usize = 0;
    while i < list.len()
        invariant
            i <= list@.len(),
            r@.len() == i,
            forall|j: int| 0 <= j < i ==> #[trigger] r@[j]@ == list@[j]@,
        decreases list@.len() - i,
    {
        r.push(list[i].clone());
        i = i + 1;
    }
    assert forall|a: Seq<char>| listed_in(r@, a) <==> listed_in(list@, a) by {
        if listed_in(r@, a) {
            let j = choose|j: int| 0 <= j < r@.len() && #[trigger] r@[j]@ == a;
            assert(list@[j]@ == a);
        }
        if listed_in(list@, a) {
            let j = choose|j: int| 0 <= j < list@.len() && #[trigger] list@[j]@ == a;
            assert(r@[j]@ == a);
        }
    }
    r
}

/// Adds each account of `accounts` that is not on the list yet.
fn add_all(list: &mut Vec<AccountId>, accounts: &Vec<AccountId>)
    requires
        no_repeats(old(list)@),
    ensures
        no_repeats(final(list)@),
        old(list)@.len() <= final(list)@.len(),
        forall|i: int| 0 <= i < old(list)@.len() ==> #[trigger] final(list)@[i] == old(list)@[i],
        forall|a: Seq<char>|
            listed_in(final(list)@, a) <==> listed_in(old(list)@, a) || listed_in(accounts@, a),
{
    let mut k: usize = 0;
    while k < accounts.len()
        invariant
            k <= accounts@.len(),
            no_repeats(list@),
            old(list)@.len() <= list@.len(),
            forall|i: int| 0 <= i < old(list)@.len() ==> #[trigger] list@[i] == old(list)@[i],
            forall|a: Seq<char>|
                listed_in(list@, a) <==> listed_in(old(list)@, a) || exists|j: int|
                    0 <= j < k && #[trigger] accounts@[j]@ == a,
        decreases accounts@.len() - k,
    {
        let a = &accounts[k];
        let ghost before = list@;
        let present = contains_account(list, a);
        if !present {
            list.push(a.clone());
        }
        assert forall|x: Seq<char>| listed_in(list@, x) <==> listed_in(before, x) || x == a@ by {
            if listed_in(before, x) {
                let i = choose|i: int| 0 <= i < before.len() && #[trigger] before[i]@ == x;
                assert(list@[i]@ == x);
            }
            if x == a@ && !present {
                assert(list@[before.len() as int]@ == x);
            }
            if listed_in(list@, x) {
                let i = choose|i: int| 0 <= i < list@.len() && #[trigger] list@[i]@ == x;
                if i < before.len() {
                    assert(before[i]@ == x);
                }
            }
        }
        assert forall|x: Seq<char>|
            listed_in(list@, x) <==> listed_in(old(list)@, x) || exists|j: int|
                0 <= j < k + 1 && #[trigger] accounts@[j]@ == x by {
            let prior = exists|j: int| 0 <= j < k && #[trigger] accounts@[j]@ == x;
            assert(listed_in(before, x) <==> listed_in(old(list)@, x) || prior);
            if x == a@ {
                assert(accounts@[k as int]@ == x);
            }
            if prior {
                let j = choose|j: int| 0 <= j < k && #[trigger] accounts@[j]@ == x;
                assert(0 <= j < k + 1 && accounts@[j]@ == x);
            }
            if exists|j: int| 0 <= j < k + 1 && #[trigger] accounts@[j]@ == x {
                let j = choose|j: int| 0 <= j < k + 1 && #[trigger] accounts@[j]@ == x;
                if j < k {
                    assert(prior);
                } else {
                    assert(x == a@);
                }
            }
        }
        k = k + 1;
    }
    assert forall|x: Seq<char>|
        (exists|j: int| 0 <= j < k && #[trigger] accounts@[j]@ == x) <==> listed_in(accounts@, x) by {}
}

} // verus!
