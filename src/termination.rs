//! Terminable grants: how much of a grant is kept when it is revoked early.

use crate::error::LockupError;
use crate::lockup::{Lockup, LockupModel, lockup_wf};
use crate::schedule::{
    Checkpoint, Schedule, lockup_behind, ordering_violated_at, schedule_bytes, sha256_of,
    total_of, truncated, unlocked_at, valid_checkpoints, matches_commitment,
};
use crate::{AccountId, Balance, CryptoHash, TimestampSec};
use vstd::prelude::*;

verus! {

/// Which curve decides what is vested when the grant is terminated.
#[derive(Debug)]
pub enum VestingConditions {
    /// The lockup schedule itself.
    SameAsLockupSchedule,
    /// A schedule disclosed only at termination, committed to by its digest.
    Hash(CryptoHash),
    /// A schedule disclosed up front.
    Schedule(Schedule),
}

pub enum VestingModel {
    SameAsLockupSchedule,
    Hash(Seq<u8>),
    Schedule(Seq<Checkpoint>),
}

impl View for VestingConditions {
    type V = VestingModel;

    open spec fn view(&self) -> VestingModel {
        match self {
            VestingConditions::SameAsLockupSchedule => VestingModel::SameAsLockupSchedule,
            VestingConditions::Hash(h) => VestingModel::Hash(h@),
            VestingConditions::Schedule(s) => VestingModel::Schedule(s@),
        }
    }
}

impl Clone for VestingConditions {
    fn clone(&self) -> (r: VestingConditions)
        ensures
            r@ == self@,
    {
        match self {
            VestingConditions::SameAsLockupSchedule => VestingConditions::SameAsLockupSchedule,
            VestingConditions::Hash(h) => VestingConditions::Hash(*h),
            VestingConditions::Schedule(s) => VestingConditions::Schedule(s.clone()),
        }
    }
}

/// Who may receive the unvested balance of a grant, and how vesting is decided.
#[derive(Debug)]
pub struct TerminationConfig {
    /// The account that paid for the grant and receives the unvested balance.
    pub beneficiary_id: AccountId,
    pub vesting_schedule: VestingConditions,
}

pub struct TerminationConfigModel {
    pub beneficiary_id: Seq<char>,
    pub vesting_schedule: VestingModel,
}

impl View for TerminationConfig {
    type V = TerminationConfigModel;

    open spec fn view(&self) -> TerminationConfigModel {
        TerminationConfigModel {
            beneficiary_id: self.beneficiary_id@,
            vesting_schedule: self.vesting_schedule@,
        }
    }
}

impl Clone for TerminationConfig {
    fn clone(&self) -> (r: TerminationConfig)
        ensures
            r@ == self@,
    {
        TerminationConfig {
            beneficiary_id: self.beneficiary_id.clone(),
            vesting_schedule: self.vesting_schedule.clone(),
        }
    }
}

/// The checkpoints of a schedule revealed by the caller, if any.
pub open spec fn revealed_view(s: Option<Schedule>) -> Option<Seq<Checkpoint>> {
    match s {
        Some(s) => Some(s@),
        None => None,
    }
}

/// A revealed schedule opens the commitment `h`: it can be encoded, and its
/// digest is `h`.
pub open spec fn opens_commitment(h: Seq<u8>, s: Seq<Checkpoint>) -> bool {
    s.len() <= u32::MAX && h == sha256_of(schedule_bytes(s))
}

/// What a termination of `l` needs to go through, given the schedule
/// revealed by the caller.
pub open spec fn can_terminate(l: LockupModel, revealed: Option<Seq<Checkpoint>>, t: int) -> bool {
    match l.termination_config {
        None => false,
        Some(config) => match config.vesting_schedule {
            VestingModel::Hash(h) => match revealed {
                None => false,
                Some(s) => opens_commitment(h, s) && valid_checkpoints(s) && total_of(s)
                    == total_of(l.schedule) && lockup_behind(l.schedule, s) && l.claimed_balance
                    <= unlocked_at(s, t),
            },
            VestingModel::Schedule(s) => l.claimed_balance <= unlocked_at(s, t),
            VestingModel::SameAsLockupSchedule => l.claimed_balance <= unlocked_at(l.schedule, t),
        },
    }
}

/// The curve that decides vesting at termination.
pub open spec fn vesting_curve(l: LockupModel, revealed: Option<Seq<Checkpoint>>) -> Seq<
    Checkpoint,
> {
    match l.termination_config.unwrap().vesting_schedule {
        VestingModel::Hash(_) => revealed.unwrap(),
        VestingModel::Schedule(s) => s,
        VestingModel::SameAsLockupSchedule => l.schedule,
    }
}

/// The balance kept by the grantee when `l` is terminated at `t`.
pub open spec fn vested_at(l: LockupModel, revealed: Option<Seq<Checkpoint>>, t: int) -> int {
    unlocked_at(vesting_curve(l, revealed), t)
}

/// The lockup after a termination at `t` that kept `vested`: the schedule is
/// cut down to the vested balance (unless nothing was unvested), and the
/// lockup is no longer terminable.
pub open spec fn terminated(l: LockupModel, vested: int) -> LockupModel {
    LockupModel {
        schedule: if vested < total_of(l.schedule) {
            truncated(l.schedule, vested)
        } else {
            l.schedule
        },
        termination_config: None,
        ..l
    }
}

/// After a termination at `t` that goes through, the schedule's total is
/// the vested balance, and at no time does the cut schedule unlock more than
/// the full one.
pub proof fn lemma_termination_never_ahead(
    l: LockupModel,
    revealed: Option<Seq<Checkpoint>>,
    t: int,
    x: int,
)
    requires
        lockup_wf(l),
        can_terminate(l, revealed, t),
    ensures
        total_of(terminated(l, vested_at(l, revealed, t)).schedule) == vested_at(l, revealed, t),
        unlocked_at(terminated(l, vested_at(l, revealed, t)).schedule, x) <= unlocked_at(
            l.schedule,
            x,
        ),
{
    let v = vested_at(l, revealed, t);
    crate::schedule::lemma_unlocked_bounds(vesting_curve(l, revealed), t);
    if v < total_of(l.schedule) {
        crate::schedule::lemma_truncated_never_ahead(l.schedule, v, x);
    } else {
        assert(v == total_of(l.schedule));
    }
}

impl Lockup {
    /// Terminates the grant at `termination_timestamp`: resolves how much is
    /// vested, cuts the schedule down to it, and returns the unvested balance
    /// with the account that receives it. A grant can be terminated once.
    pub fn terminate(
        &mut self,
        hashed_schedule: Option<Schedule>,
        termination_timestamp: TimestampSec,
    ) -> (r: Result<(Balance, AccountId), LockupError>)
        requires
            lockup_wf(old(self)@),
        ensures
            lockup_wf(final(self)@),
            r is Ok <==> can_terminate(
                old(self)@,
                revealed_view(hashed_schedule),
                termination_timestamp as int,
            ),
            r is Err ==> final(self)@ == old(self)@,
            old(self)@.termination_config is None ==> r == Err::<(Balance, AccountId), LockupError>(
                LockupError::NoTerminationConfig,
            ),
            r is Ok ==> {
                let vested = vested_at(
                    old(self)@,
                    revealed_view(hashed_schedule),
                    termination_timestamp as int,
                );
                &&& r->Ok_0.0 == total_of(old(self)@.schedule) - vested
                &&& r->Ok_0.1@ == old(self)@.termination_config.unwrap().beneficiary_id
                &&& final(self)@ == terminated(old(self)@, vested)
                &&& total_of(final(self)@.schedule) == vested
            },
            match old(self)@.termination_config {
                Some(config) => match (config.vesting_schedule, hashed_schedule) {
                    (VestingModel::Hash(h), None) => r == Err::<(Balance, AccountId), LockupError>(
                        LockupError::RevealRequired,
                    ),
                    (VestingModel::Hash(h), Some(s)) => {
                        &&& !opens_commitment(h, s@) ==> r == Err::<(Balance, AccountId), LockupError>(
                            LockupError::CommitmentMismatch,
                        )
                        &&& opens_commitment(h, s@) && !(valid_checkpoints(s@) && total_of(s@)
                            == total_of(old(self)@.schedule)) ==> r == Err::<
                            (Balance, AccountId),
                            LockupError,
                        >(LockupError::ScheduleInvalid)
                        &&& (r matches Err(LockupError::ScheduleOrderingViolation { timestamp }) ==>
                            ordering_violated_at(old(self)@.schedule, s@, timestamp))
                    },
                    _ => true,
                },
                None => true,
            },
    {
        let total_balance = self.schedule.total_balance();
        let vested_balance = match &self.termination_config {
            None => {
                return Err(LockupError::NoTerminationConfig);
            },
            Some(config) => match &config.vesting_schedule {
                VestingConditions::SameAsLockupSchedule => self.schedule.unlocked_balance(
                    termination_timestamp,
                ),
                VestingConditions::Schedule(schedule) => schedule.unlocked_balance(
                    termination_timestamp,
                ),
                VestingConditions::Hash(hash) => {
                    let schedule = match &hashed_schedule {
                        None => {
                            return Err(LockupError::RevealRequired);
                        },
                        Some(s) => s,
                    };
                    if schedule.0.len() > u32::MAX as usize {
                        return Err(LockupError::CommitmentMismatch);
                    }
                    let revealed_digest = schedule.hash();
                    if !matches_commitment(hash, &revealed_digest) {
                        return Err(LockupError::CommitmentMismatch);
                    }
                    if let Err(e) = schedule.assert_valid(total_balance) {
                        return Err(e);
                    }
                    if let Err(e) = self.schedule.assert_valid_termination_schedule(schedule) {
                        return Err(e);
                    }
                    schedule.unlocked_balance(termination_timestamp)
                },
            },
        };
        proof {
            crate::schedule::lemma_unlocked_bounds(
                vesting_curve(self@, revealed_view(hashed_schedule)),
                termination_timestamp as int,
            );
        }
        if vested_balance < self.claimed_balance {
            return Err(LockupError::InvariantViolation);
        }
        let beneficiary_id = match self.termination_config.take() {
            Some(config) => config.beneficiary_id,
            None => {
                return Err(LockupError::NoTerminationConfig);
            },
        };
        let unvested_balance = total_balance - vested_balance;
        if unvested_balance > 0 {
            self.schedule.terminate(vested_balance);
        }
        Ok((unvested_balance, beneficiary_id))
    }
}

} // verus!
