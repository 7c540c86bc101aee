//! Creating lockups from transfers, terminating them, and settling the
//! transfer of an unvested balance.

use crate::draft::{DraftGroupIndex, DraftIndex};
use crate::error::LockupError;
use crate::ledger::{Contract, listed_in};
use crate::lockup::{Lockup, LockupCreate, LockupIndex, LockupModel, lockup_of, lockup_wf, new_lockup_ok};
use crate::schedule::{Schedule, total_of};
use crate::termination::{TerminationConfig, VestingConditions, can_terminate, revealed_view, terminated, vested_at};
use crate::{AccountId, Balance, TimestampSec};
use vstd::prelude::*;

verus! {

broadcast use vstd::std_specs::hash::group_hash_axioms;

/// What a transfer of tokens into the ledger asks for.
#[derive(Debug)]
pub enum FtMessage {
    /// Create one lockup, paid for by the sender.
    LockupCreate(LockupCreate),
    /// Fund a draft group.
    DraftGroupFunding(DraftGroupFunding),
}

/// Funding for a draft group.
#[derive(Clone, Copy, Debug, PartialEq, Eq, Structural)]
pub struct DraftGroupFunding {
    pub draft_group_id: DraftGroupIndex,
    /// Whether to try converting the group's drafts right after funding.
    pub try_convert: Option<bool>,
}

impl Contract {
    /// Terminates lockup `lockup_index` on behalf of `caller`, effective at
    /// `termination_timestamp` (by default `now`, and never before it).
    /// Returns the unvested balance and the account to transfer it to. A
    /// lockup left with nothing leaves its account's list.
    pub fn terminate(
        &mut self,
        caller: &AccountId,
        lockup_index: LockupIndex,
        hashed_schedule: Option<Schedule>,
        termination_timestamp: Option<TimestampSec>,
        now: TimestampSec,
    ) -> (r: Result<(Balance, AccountId), LockupError>)
        requires
            old(self).wf(),
        ensures
            final(self).wf(),
            r is Err ==> *final(self) == *old(self),
            !listed_in(old(self).deposit_whitelist@, caller@) ==> r == Err::<
                (Balance, AccountId),
                LockupError,
            >(LockupError::NotAuthorized),
            listed_in(old(self).deposit_whitelist@, caller@) && lockup_index >= old(self).lockups@.len()
                ==> r == Err::<(Balance, AccountId), LockupError>(LockupError::LockupNotFound),
            ({
                let t = match termination_timestamp {
                    Some(t) => t,
                    None => now,
                };
                let i = lockup_index as int;
                &&& listed_in(old(self).deposit_whitelist@, caller@) && i < old(self).lockups@.len()
                    && t < now ==> r == Err::<(Balance, AccountId), LockupError>(
                    LockupError::InvalidTerminationTimestamp,
                )
                &&& r is Ok <==> listed_in(old(self).deposit_whitelist@, caller@) && i
                    < old(self).lockups@.len() && t >= now && can_terminate(
                    old(self).lockups@[i]@,
                    revealed_view(hashed_schedule),
                    t as int,
                )
                &&& r is Ok ==> {
                    let l = old(self).lockups@[i]@;
                    let vested = vested_at(l, revealed_view(hashed_schedule), t as int);
                    &&& r->Ok_0.0 == total_of(l.schedule) - vested
                    &&& r->Ok_0.1@ == l.termination_config.unwrap().beneficiary_id
                    &&& final(self).lockups@.len() == old(self).lockups@.len()
                    &&& final(self).lockups@[i]@ == terminated(l, vested)
                    &&& forall|j: int|
                        0 <= j < old(self).lockups@.len() && j != i ==> #[trigger] final(self).lockups@[j]
                            == old(self).lockups@[j]
                    &&& final(self).account_lockups@ == if vested == 0 {
                        old(self).account_lockups@.update(i, false)
                    } else {
                        old(self).account_lockups@
                    }
                    &&& final(self).drafts == old(self).drafts
                    &&& final(self).draft_groups == old(self).draft_groups
                    &&& final(self).deposit_whitelist == old(self).deposit_whitelist
                    &&& final(self).draft_operators_whitelist == old(self).draft_operators_whitelist
                }
            }),
    {
        if let Err(e) = self.check_deposit_whitelist(caller) {
            return Err(e);
        }
        let i = lockup_index as usize;
        if i >= self.lockups.len() {
            return Err(LockupError::LockupNotFound);
        }
        let termination_timestamp = match termination_timestamp {
            Some(t) => t,
            None => now,
        };
        if termination_timestamp < now {
            return Err(LockupError::InvalidTerminationTimestamp);
        }
        let mut lockup = self.lockups[i].clone();
        assert(lockup_wf(lockup@));
        let result = lockup.terminate(hashed_schedule, termination_timestamp);
        let (unvested_balance, beneficiary_id) = match result {
            Ok(v) => v,
            Err(e) => {
                return Err(e);
            },
        };
        let ghost before = *self;
        let emptied = lockup.schedule.total_balance() == 0;
        self.lockups.set(i, lockup);
        if emptied {
            self.internal_save_account_lockup(i, false);
        }
        proof {
            assert forall|g: DraftGroupIndex| #[trigger] self.draft_groups@.contains_key(g) implies self.group_wf(g) by {
                assert(before.group_wf(g));
            }
            assert forall|d: DraftIndex| #[trigger] self.drafts@.contains_key(d) implies self.draft_wf(d) by {
                assert(before.draft_wf(d));
            }
        }
        Ok((unvested_balance, beneficiary_id))
    }

    /// Settles the transfer of an unvested balance at `now`. When it failed,
    /// the amount is not lost: it becomes a new lockup for the intended
    /// recipient, fully unlocked from `now` on. Returns what was paid out.
    pub fn after_lockup_termination(
        &mut self,
        account_id: AccountId,
        amount: Balance,
        transfer_succeeded: bool,
        now: TimestampSec,
    ) -> (r: Balance)
        requires
            old(self).wf(),
            old(self).lockups@.len() < u32::MAX,
        ensures
            final(self).wf(),
            transfer_succeeded ==> r == amount && *final(self) == *old(self),
            !transfer_succeeded ==> {
                &&& r == 0
                &&& final(self).lockups@.len() == old(self).lockups@.len() + 1
                &&& final(self).lockups@.drop_last() == old(self).lockups@
                &&& final(self).lockups@.last()@.account_id == account_id@
                &&& final(self).lockups@.last()@.schedule == ({
                    let since: TimestampSec = if now >= 1 {
                        now
                    } else {
                        1
                    };
                    seq![
                        crate::schedule::Checkpoint { timestamp: (since - 1) as TimestampSec, balance: 0 },
                        crate::schedule::Checkpoint { timestamp: since, balance: amount },
                    ]
                })
                &&& final(self).lockups@.last()@.claimed_balance == 0
                &&& final(self).lockups@.last()@.termination_config is None
                &&& final(self).account_lockups@ == old(self).account_lockups@.push(true)
                &&& final(self).drafts == old(self).drafts
                &&& final(self).draft_groups == old(self).draft_groups
            },
    {
        if transfer_succeeded {
            return amount;
        }
        let since: TimestampSec = if now >= 1 {
            now
        } else {
            1
        };
        let lockup = Lockup::new_unlocked_since(account_id, amount, since);
        let _ = self.internal_add_lockup(lockup);
        proof {
            assert(self.lockups@.drop_last() =~= old(self).lockups@);
        }
        0
    }

    /// Makes lockup `lockup_index` terminable by `beneficiary_id`, vesting as
    /// it unlocks.
    pub fn make_lockup_terminable(&mut self, beneficiary_id: AccountId, lockup_index: LockupIndex) -> (r:
        Result<(), LockupError>)
        requires
            old(self).wf(),
        ensures
            final(self).wf(),
            r is Err ==> *final(self) == *old(self),
            r is Ok <==> lockup_index < old(self).lockups@.len(),
            r is Ok ==> {
                let i = lockup_index as int;
                &&& final(self).lockups@.len() == old(self).lockups@.len()
                &&& final(self).lockups@[i]@ == (LockupModel {
                    termination_config: Some(
                        crate::termination::TerminationConfigModel {
                            beneficiary_id: beneficiary_id@,
                            vesting_schedule: crate::termination::VestingModel::SameAsLockupSchedule,
                        },
                    ),
                    ..old(self).lockups@[i]@
                })
                &&& forall|j: int|
                    0 <= j < old(self).lockups@.len() && j != i ==> #[trigger] final(self).lockups@[j]
                        == old(self).lockups@[j]
                &&& final(self).account_lockups == old(self).account_lockups
            },
    {
        let i = lockup_index as usize;
        if i >= self.lockups.len() {
            return Err(LockupError::LockupNotFound);
        }
        let mut lockup = self.lockups[i].clone();
        assert(lockup_wf(lockup@));
        lockup.termination_config = Some(
            TerminationConfig { beneficiary_id, vesting_schedule: VestingConditions::SameAsLockupSchedule },
        );
        let ghost before = *self;
        self.lockups.set(i, lockup);
        proof {
            assert forall|g: DraftGroupIndex| #[trigger] self.draft_groups@.contains_key(g) implies self.group_wf(g) by {
                assert(before.group_wf(g));
            }
            assert forall|d: DraftIndex| #[trigger] self.drafts@.contains_key(d) implies self.draft_wf(d) by {
                assert(before.draft_wf(d));
            }
        }
        Ok(())
    }

    /// Creates a lockup paid for by `sender_id` with a transfer of `amount`,
    /// which must be exactly the lockup's total.
    pub fn create_lockup(&mut self, sender_id: &AccountId, amount: Balance, lockup_create: LockupCreate) -> (r:
        Result<LockupIndex, LockupError>)
        requires
            old(self).wf(),
        ensures
            final(self).wf(),
            r is Err ==> *final(self) == *old(self),
            !listed_in(old(self).deposit_whitelist@, sender_id@) ==> r == Err::<LockupIndex, LockupError>(
                LockupError::NotAuthorized,
            ),
            r is Ok <==> listed_in(old(self).deposit_whitelist@, sender_id@) && new_lockup_ok(
                lockup_of(lockup_create@, sender_id@),
                amount as int,
            ) && old(self).lockups@.len() < u32::MAX,
            r is Ok ==> {
                &&& r->Ok_0 == old(self).lockups@.len()
                &&& final(self).lockups@.len() == old(self).lockups@.len() + 1
                &&& final(self).lockups@.drop_last() == old(self).lockups@
                &&& final(self).lockups@.last()@ == lockup_of(lockup_create@, sender_id@)
                &&& final(self).account_lockups@ == old(self).account_lockups@.push(true)
                &&& final(self).drafts == old(self).drafts
                &&& final(self).draft_groups == old(self).draft_groups
                &&& final(self).deposit_whitelist == old(self).deposit_whitelist
                &&& final(self).draft_operators_whitelist == old(self).draft_operators_whitelist
            },
    {
        if let Err(e) = self.check_deposit_whitelist(sender_id) {
            return Err(e);
        }
        let lockup = lockup_create.into_lockup(sender_id);
        if let Err(e) = lockup.assert_new_valid(amount) {
            return Err(e);
        }
        if self.lockups.len() >= u32::MAX as usize {
            return Err(LockupError::ArithmeticOverflow);
        }
        let index = self.internal_add_lockup(lockup);
        proof {
            assert(self.lockups@.drop_last() =~= old(self).lockups@);
        }
        Ok(index)
    }

    /// Handles a transfer of `amount` of a token into the ledger, sent by
    /// `sender_id` and reported by `token_id`: creates a lockup or funds a
    /// draft group, as `msg` asks.
    pub fn ft_on_transfer(
        &mut self,
        token_id: &AccountId,
        sender_id: &AccountId,
        amount: Balance,
        msg: FtMessage,
    ) -> (r: Result<(), LockupError>)
        requires
            old(self).wf(),
        ensures
            final(self).wf(),
            r is Err ==> *final(self) == *old(self),
            token_id@ != old(self).token_account_id@ ==> r == Err::<(), LockupError>(
                LockupError::UnknownToken,
            ),
            token_id@ == old(self).token_account_id@ && !listed_in(old(self).deposit_whitelist@, sender_id@)
                ==> r == Err::<(), LockupError>(LockupError::NotAuthorized),
            token_id@ == old(self).token_account_id@ && listed_in(old(self).deposit_whitelist@, sender_id@)
                ==> match msg {
                FtMessage::LockupCreate(c) => {
                    &&& r is Ok <==> new_lockup_ok(lockup_of(c@, sender_id@), amount as int)
                        && old(self).lockups@.len() < u32::MAX
                    &&& r is Ok ==> final(self).lockups@.drop_last() == old(self).lockups@
                        && final(self).lockups@.last()@ == lockup_of(c@, sender_id@)
                        && final(self).account_lockups@ == old(self).account_lockups@.push(true)
                        && final(self).drafts == old(self).drafts
                        && final(self).draft_groups == old(self).draft_groups
                },
                FtMessage::DraftGroupFunding(f) => {
                    let g = f.draft_group_id;
                    &&& r is Ok <==> old(self).draft_groups@.contains_key(g)
                        && old(self).draft_groups@[g]@.total_amount == amount
                        && !old(self).draft_groups@[g]@.discarded
                        && old(self).draft_groups@[g]@.payer_id is None
                    &&& old(self).draft_groups@.contains_key(g) && old(self).draft_groups@[g]@.total_amount
                        != amount ==> r == Err::<(), LockupError>(LockupError::AmountMismatch)
                    &&& !old(self).draft_groups@.contains_key(g) ==> r == Err::<(), LockupError>(
                        LockupError::DraftGroupNotFound,
                    )
                    &&& r is Ok ==> final(self).draft_groups@[g]@ == (crate::draft::DraftGroupModel {
                        payer_id: Some(sender_id@),
                        ..old(self).draft_groups@[g]@
                    }) && final(self).drafts == old(self).drafts && final(self).lockups
                        == old(self).lockups && final(self).account_lockups == old(self).account_lockups
                        && final(self).draft_groups@.dom() == old(self).draft_groups@.dom()
                        && forall|h: DraftGroupIndex|
                        h != g && #[trigger] final(self).draft_groups@.contains_key(h)
                            ==> final(self).draft_groups@[h] == old(self).draft_groups@[h]
                },
            },
    {
        if *token_id != self.token_account_id {
            return Err(LockupError::UnknownToken);
        }
        if let Err(e) = self.check_deposit_whitelist(sender_id) {
            return Err(e);
        }
        match msg {
            FtMessage::LockupCreate(lockup_create) => {
                match self.create_lockup(sender_id, amount, lockup_create) {
                    Ok(_) => Ok(()),
                    Err(e) => Err(e),
                }
            },
            FtMessage::DraftGroupFunding(funding) => {
                self.fund_draft_group(sender_id, amount, funding.draft_group_id)
            },
        }
    }
}

} // verus!
