//! One grant: its schedule, what has been claimed, and how it may be
//! terminated.

use crate::error::LockupError;
use crate::schedule::{Checkpoint, Schedule, total_of, unlocked_at, valid_checkpoints, lockup_behind};
use crate::termination::{TerminationConfig, TerminationConfigModel, VestingConditions, VestingModel};
use crate::{AccountId, Balance, TimestampSec};
use vstd::prelude::*;

verus! {

pub type LockupIndex = u32;

/// The record of one claim: which lockup, how much, and whether it took
/// everything that was left.
#[derive(Clone, Copy, Debug, PartialEq, Eq, Structural)]
pub struct LockupClaim {
    pub index: LockupIndex,
    pub claim_amount: Balance,
    pub is_final: bool,
}

#[derive(Debug)]
pub struct Lockup {
    pub account_id: AccountId,
    pub schedule: Schedule,
    pub claimed_balance: Balance,
    /// Present while the grant can be terminated.
    pub termination_config: Option<TerminationConfig>,
}

pub struct LockupModel {
    pub account_id: Seq<char>,
    pub schedule: Seq<Checkpoint>,
    pub claimed_balance: Balance,
    pub termination_config: Option<TerminationConfigModel>,
}

impl View for Lockup {
    type V = LockupModel;

    open spec fn view(&self) -> LockupModel {
        LockupModel {
            account_id: self.account_id@,
            schedule: self.schedule@,
            claimed_balance: self.claimed_balance,
            termination_config: match self.termination_config {
                Some(c) => Some(c@),
                None => None,
            },
        }
    }
}

impl Clone for Lockup {
    fn clone(&self) -> (r: Lockup)
        ensures
            r@ == self@,
    {
        Lockup {
            account_id: self.account_id.clone(),
            schedule: self.schedule.clone(),
            claimed_balance: self.claimed_balance,
            termination_config: match &self.termination_config {
                Some(c) => Some(c.clone()),
                None => None,
            },
        }
    }
}

/// A lockup in a consistent state: its schedule is valid, it never has more
/// claimed than its total, and an explicit vesting schedule is valid with
/// the same total.
pub open spec fn lockup_wf(l: LockupModel) -> bool {
    &&& valid_checkpoints(l.schedule)
    &&& l.claimed_balance <= total_of(l.schedule)
    &&& match l.termination_config {
        Some(c) => match c.vesting_schedule {
            VestingModel::Schedule(s) => valid_checkpoints(s) && total_of(s) == total_of(
                l.schedule,
            ),
            _ => true,
        },
        None => true,
    }
}

/// A lockup that may be created for `total_balance`: nothing claimed, a valid
/// schedule with that total, and an explicit vesting schedule that is valid,
/// has that total, and is never behind the lockup schedule.
pub open spec fn new_lockup_ok(l: LockupModel, total_balance: int) -> bool {
    &&& l.claimed_balance == 0
    &&& valid_checkpoints(l.schedule)
    &&& total_of(l.schedule) == total_balance
    &&& match l.termination_config {
        Some(c) => match c.vesting_schedule {
            VestingModel::Schedule(s) => valid_checkpoints(s) && total_of(s) == total_balance
                && lockup_behind(l.schedule, s),
            _ => true,
        },
        None => true,
    }
}

/// The lockup with its claimed balance set to `claimed`.
pub open spec fn with_claimed(l: LockupModel, claimed: Balance) -> LockupModel {
    LockupModel { claimed_balance: claimed, ..l }
}

/// What is unlocked at `now` and not yet claimed.
pub open spec fn claimable(l: LockupModel, now: int) -> int {
    if unlocked_at(l.schedule, now) >= l.claimed_balance {
        unlocked_at(l.schedule, now) - l.claimed_balance
    } else {
        0
    }
}

/// A successful claim of `amount` at `now` took `before` to `after`.
pub open spec fn claim_step(before: LockupModel, after: LockupModel, amount: Balance, now: int) -> bool {
    &&& before.claimed_balance + amount <= unlocked_at(before.schedule, now)
    &&& after == with_claimed(before, (before.claimed_balance + amount) as Balance)
}

/// Along any run of successful claims, the claimed balance never decreases,
/// never passes what was unlocked at the time of each claim, and never
/// passes the total.
pub proof fn lemma_claims_stay_within_unlocked(
    states: Seq<LockupModel>,
    amounts: Seq<Balance>,
    times: Seq<int>,
)
    requires
        states.len() == amounts.len() + 1,
        times.len() == amounts.len(),
        lockup_wf(states[0]),
        forall|k: int|
            0 <= k < amounts.len() ==> claim_step(states[k], #[trigger] states[k + 1], amounts[k], times[k]),
    ensures
        forall|k: int|
            0 <= k < amounts.len() ==> states[k].claimed_balance <= #[trigger] states[k + 1].claimed_balance
                && states[k + 1].claimed_balance <= unlocked_at(states[k].schedule, times[k]),
        forall|k: int| 0 <= k < states.len() ==> lockup_wf(#[trigger] states[k]),
        forall|k: int|
            0 <= k < states.len() ==> #[trigger] states[k].claimed_balance <= total_of(states[k].schedule),
    decreases amounts.len(),
{
    if amounts.len() > 0 {
        let n = amounts.len() - 1;
        let s0 = states.drop_last();
        lemma_claims_stay_within_unlocked(s0, amounts.drop_last(), times.drop_last());
        assert(s0[n] == states[n]);
        assert(lockup_wf(s0[n]));
        crate::schedule::lemma_unlocked_bounds(states[n].schedule, times[n]);
        assert(claim_step(states[n], states[n + 1], amounts[n], times[n]));
        assert(lockup_wf(states[n + 1]));
        assert forall|k: int| 0 <= k < states.len() implies lockup_wf(#[trigger] states[k]) by {
            if k <= n {
                assert(s0[k] == states[k]);
            }
        }
        assert forall|k: int| 0 <= k < amounts.len() implies states[k].claimed_balance
            <= #[trigger] states[k + 1].claimed_balance && states[k + 1].claimed_balance <= unlocked_at(
            states[k].schedule,
            times[k],
        ) by {
            if k < n {
                assert(s0[k] == states[k] && s0[k + 1] == states[k + 1]);
            }
        }
    }
}

/// The sum of a list of amounts.
pub open spec fn sum_of(amounts: Seq<Balance>) -> int
    decreases amounts.len(),
{
    if amounts.len() == 0 {
        0
    } else {
        sum_of(amounts.drop_last()) + amounts.last()
    }
}

/// Along any run of successful claims, what is claimed in aggregate is the
/// sum of the claimed amounts, and it never passes the lockup's total (after
/// a termination, the vested balance): the schedule does not change.
pub proof fn lemma_claims_add_up_within_total(
    states: Seq<LockupModel>,
    amounts: Seq<Balance>,
    times: Seq<int>,
)
    requires
        states.len() == amounts.len() + 1,
        times.len() == amounts.len(),
        lockup_wf(states[0]),
        forall|k: int|
            0 <= k < amounts.len() ==> claim_step(states[k], #[trigger] states[k + 1], amounts[k], times[k]),
    ensures
        forall|k: int|
            0 <= k < states.len() ==> #[trigger] states[k].schedule == states[0].schedule,
        states.last().claimed_balance == states[0].claimed_balance + sum_of(amounts),
        states[0].claimed_balance + sum_of(amounts) <= total_of(states[0].schedule),
    decreases amounts.len(),
{
    lemma_claims_stay_within_unlocked(states, amounts, times);
    if amounts.len() > 0 {
        let n = amounts.len() - 1;
        let s0 = states.drop_last();
        assert forall|k: int| 0 <= k < amounts.drop_last().len() implies claim_step(
            s0[k],
            #[trigger] s0[k + 1],
            amounts.drop_last()[k],
            times.drop_last()[k],
        ) by {
            assert(claim_step(states[k], states[k + 1], amounts[k], times[k]));
        }
        lemma_claims_add_up_within_total(s0, amounts.drop_last(), times.drop_last());
        assert(s0.last() == states[n]);
        assert(claim_step(states[n], states[n + 1], amounts[n], times[n]));
        assert forall|k: int| 0 <= k < states.len() implies #[trigger] states[k].schedule
            == states[0].schedule by {
            if k <= n {
                assert(s0[k] == states[k]);
            }
        }
        assert(lockup_wf(states[n + 1]));
        assert(s0[0] == states[0]);
        assert(lockup_wf(states[n]));
        crate::schedule::lemma_unlocked_bounds(states[n].schedule, times[n]);
        assert(states[n + 1].claimed_balance == states[n].claimed_balance + amounts[n]);
        assert(amounts.last() == amounts[n]);
        assert(sum_of(amounts) == sum_of(amounts.drop_last()) + amounts[n]);
        assert(states.last() == states[n + 1]);
        assert(states[n + 1].schedule == states[0].schedule);
    }
}

impl Lockup {
    /// A grant of `total_balance` to `account_id` that is all unlocked at
    /// `timestamp`.
    pub fn new_unlocked_since(account_id: AccountId, total_balance: Balance, timestamp: TimestampSec) -> (r: Lockup)
        requires
            timestamp >= 1,
        ensures
            r@.account_id == account_id@,
            r@.schedule == seq![
                Checkpoint { timestamp: (timestamp - 1) as TimestampSec, balance: 0 },
                Checkpoint { timestamp, balance: total_balance },
            ],
            r@.claimed_balance == 0,
            r@.termination_config is None,
            lockup_wf(r@),
            new_lockup_ok(r@, total_balance as int),
    {
        Lockup {
            account_id,
            schedule: Schedule::new_unlocked_since(total_balance, timestamp),
            claimed_balance: 0,
            termination_config: None,
        }
    }

    /// A grant of `total_balance` to `account_id` that is all unlocked.
    pub fn new_unlocked(account_id: AccountId, total_balance: Balance) -> (r: Lockup)
        ensures
            r@.account_id == account_id@,
            r@.schedule == seq![
                Checkpoint { timestamp: 0, balance: 0 },
                Checkpoint { timestamp: 1, balance: total_balance },
            ],
            r@.claimed_balance == 0,
            r@.termination_config is None,
            lockup_wf(r@),
            new_lockup_ok(r@, total_balance as int),
    {
        Self::new_unlocked_since(account_id, total_balance, 1)
    }

    /// Claims `claim_amount` at time `now`. The claimed balance may not pass
    /// what is unlocked at `now`, and its addition is checked.
    pub fn claim(&mut self, index: LockupIndex, claim_amount: Balance, now: TimestampSec) -> (r: Result<
        LockupClaim,
        LockupError,
    >)
        requires
            lockup_wf(old(self)@),
        ensures
            lockup_wf(final(self)@),
            old(self)@.claimed_balance + claim_amount > u128::MAX ==> r == Err::<
                LockupClaim,
                LockupError,
            >(LockupError::ArithmeticOverflow),
            old(self)@.claimed_balance + claim_amount <= u128::MAX && old(self)@.claimed_balance
                + claim_amount > unlocked_at(old(self)@.schedule, now as int) ==> r == Err::<
                LockupClaim,
                LockupError,
            >(LockupError::ClaimExceedsUnlocked { index }),
            r is Err ==> final(self)@ == old(self)@,
            r is Ok ==> claim_step(old(self)@, final(self)@, claim_amount, now as int),
            old(self)@.claimed_balance + claim_amount <= unlocked_at(old(self)@.schedule, now as int)
                ==> {
                let claimed = (old(self)@.claimed_balance + claim_amount) as Balance;
                &&& final(self)@ == with_claimed(old(self)@, claimed)
                &&& r == Ok::<LockupClaim, LockupError>(
                    LockupClaim {
                        index,
                        claim_amount,
                        is_final: claimed == total_of(old(self)@.schedule),
                    },
                )
            },
    {
        let unlocked_balance = self.schedule.unlocked_balance(now);
        proof {
            crate::schedule::lemma_unlocked_bounds(self@.schedule, now as int);
        }
        let balance_claimed_new = match self.claimed_balance.checked_add(claim_amount) {
            Some(b) => b,
            None => {
                return Err(LockupError::ArithmeticOverflow);
            },
        };
        if unlocked_balance < balance_claimed_new {
            return Err(LockupError::ClaimExceedsUnlocked { index });
        }
        self.claimed_balance = balance_claimed_new;
        Ok(
            LockupClaim {
                index,
                claim_amount,
                is_final: balance_claimed_new == self.schedule.total_balance(),
            },
        )
    }

    /// Accepts a lockup about to be created for `total_balance`.
    pub fn assert_new_valid(&self, total_balance: Balance) -> (r: Result<(), LockupError>)
        ensures
            r is Ok <==> new_lockup_ok(self@, total_balance as int),
            r is Ok ==> lockup_wf(self@),
            self@.claimed_balance != 0 ==> r == Err::<(), LockupError>(
                LockupError::ClaimedBalanceNotZero,
            ),
    {
        if self.claimed_balance != 0 {
            return Err(LockupError::ClaimedBalanceNotZero);
        }
        if let Err(e) = self.schedule.assert_valid(total_balance) {
            return Err(e);
        }
        match &self.termination_config {
            Some(config) => match &config.vesting_schedule {
                VestingConditions::Schedule(schedule) => {
                    if let Err(e) = schedule.assert_valid(total_balance) {
                        return Err(e);
                    }
                    if let Err(e) = self.schedule.assert_valid_termination_schedule(schedule) {
                        return Err(e);
                    }
                },
                _ => {},
            },
            None => {},
        }
        Ok(())
    }
}

/// What a grant is created from: its account, its schedule, and how it
/// vests if it is terminable.
#[derive(Debug)]
pub struct LockupCreate {
    pub account_id: AccountId,
    pub schedule: Schedule,
    pub vesting_schedule: Option<VestingConditions>,
}

pub struct LockupCreateModel {
    pub account_id: Seq<char>,
    pub schedule: Seq<Checkpoint>,
    pub vesting_schedule: Option<VestingModel>,
}

impl View for LockupCreate {
    type V = LockupCreateModel;

    open spec fn view(&self) -> LockupCreateModel {
        LockupCreateModel {
            account_id: self.account_id@,
            schedule: self.schedule@,
            vesting_schedule: match self.vesting_schedule {
                Some(v) => Some(v@),
                None => None,
            },
        }
    }
}

impl Clone for LockupCreate {
    fn clone(&self) -> (r: LockupCreate)
        ensures
            r@ == self@,
    {
        LockupCreate {
            account_id: self.account_id.clone(),
            schedule: self.schedule.clone(),
            vesting_schedule: match &self.vesting_schedule {
                Some(v) => Some(v.clone()),
                None => None,
            },
        }
    }
}

/// The lockup that `c` becomes when `payer_id` pays for it: terminable by the
/// payer exactly when `c` names a vesting schedule.
pub open spec fn lockup_of(c: LockupCreateModel, payer_id: Seq<char>) -> LockupModel {
    LockupModel {
        account_id: c.account_id,
        schedule: c.schedule,
        claimed_balance: 0,
        termination_config: match c.vesting_schedule {
            Some(v) => Some(TerminationConfigModel { beneficiary_id: payer_id, vesting_schedule: v }),
            None => None,
        },
    }
}

impl LockupCreate {
    /// A grant of `total_balance` to `account_id`, all unlocked, not terminable.
    pub fn new_unlocked(account_id: AccountId, total_balance: Balance) -> (r: LockupCreate)
        ensures
            r@.account_id == account_id@,
            r@.schedule == seq![
                Checkpoint { timestamp: 0, balance: 0 },
                Checkpoint { timestamp: 1, balance: total_balance },
            ],
            r@.vesting_schedule is None,
    {
        LockupCreate {
            account_id,
            schedule: Schedule::new_unlocked(total_balance),
            vesting_schedule: None,
        }
    }

    /// The lockup this creates when `payer_id` pays for it.
    pub fn into_lockup(&self, payer_id: &AccountId) -> (r: Lockup)
        ensures
            r@ == lockup_of(self@, payer_id@),
    {
        Lockup {
            account_id: self.account_id.clone(),
            schedule: self.schedule.clone(),
            claimed_balance: 0,
            termination_config: match &self.vesting_schedule {
                None => None,
                Some(vesting_schedule) => Some(
                    TerminationConfig {
                        beneficiary_id: payer_id.clone(),
                        vesting_schedule: vesting_schedule.clone(),
                    },
                ),
            },
        }
    }
}

} // verus!
