use ft_lockup::draft::Draft;
use ft_lockup::error::LockupError;
use ft_lockup::grants::{DraftGroupFunding, FtMessage};
use ft_lockup::ledger::Contract;
use ft_lockup::lockup::{LockupClaim, LockupCreate};
use ft_lockup::schedule::{Checkpoint, Schedule};
use ft_lockup::termination::VestingConditions;
use ft_lockup::util::{auto_convert_gas, nano_to_sec, GAS_EXT_CALL_COST, GAS_MIN_FOR_CONVERT};
use std::collections::{HashMap, HashSet};

const ONE_DAY_SEC: u32 = 24 * 60 * 60;
const ONE_YEAR_SEC: u32 = 365 * ONE_DAY_SEC;
const GENESIS_TIMESTAMP_SEC: u32 = 1_600_000_000;
const TOKEN_DECIMALS: u8 = 18;
const TOKEN_ID: &str = "token.near";
const OWNER: &str = "owner.near";
const DRAFT_OPERATOR: &str = "draft_operator.near";
const ALICE: &str = "alice.near";
const BOB: &str = "bob.near";
const EVE: &str = "eve.near";

fn d(value: u128, decimals: u8) -> u128 {
    value * 10u128.pow(decimals as u32)
}

fn cp(timestamp: u32, balance: u128) -> Checkpoint {
    Checkpoint { timestamp, balance }
}

/// The ledger with a stand-in for the token: transfers to accounts that
/// registered with the token succeed, others fail.
struct Env {
    contract: Contract,
    now: u32,
    registered: HashSet<String>,
    balances: HashMap<String, u128>,
}

impl Env {
    fn init() -> Env {
        let contract = Contract::new(
            TOKEN_ID.to_string(),
            vec![OWNER.to_string()],
            Some(vec![DRAFT_OPERATOR.to_string()]),
        );
        Env { contract, now: 0, registered: HashSet::new(), balances: HashMap::new() }
    }

    fn set_time_sec(&mut self, t: u32) {
        self.now = t;
    }

    fn storage_deposit(&mut self, account: &str) {
        self.registered.insert(account.to_string());
    }

    fn ft_balance_of(&self, account: &str) -> u128 {
        *self.balances.get(account).unwrap_or(&0)
    }

    fn transfer(&mut self, to: &str, amount: u128) -> bool {
        if self.registered.contains(to) {
            *self.balances.entry(to.to_string()).or_insert(0) += amount;
            true
        } else {
            false
        }
    }

    fn add_lockup(&mut self, sender: &str, amount: u128, lockup_create: LockupCreate) -> Result<u32, LockupError> {
        self.contract.create_lockup(&sender.to_string(), amount, lockup_create)
    }

    fn claim(&mut self, account: &str) -> u128 {
        let (total, claims) = self.contract.claim(&account.to_string(), None, self.now).unwrap();
        self.settle(account, total, claims)
    }

    fn settle(&mut self, account: &str, total: u128, claims: Vec<LockupClaim>) -> u128 {
        if total == 0 {
            return 0;
        }
        let ok = self.transfer(account, total);
        self.contract.after_ft_transfer(&account.to_string(), claims, ok)
    }

    fn terminate(&mut self, caller: &str, index: u32, revealed: Option<Schedule>, at: Option<u32>) -> Result<u128, LockupError> {
        let (unvested, beneficiary) = self.contract.terminate(&caller.to_string(), index, revealed, at, self.now)?;
        if unvested == 0 {
            return Ok(0);
        }
        let ok = self.transfer(&beneficiary, unvested);
        Ok(self.contract.after_lockup_termination(beneficiary, unvested, ok, self.now))
    }

    /// (total, claimed, unclaimed) of the first lockup listed under the account.
    fn first(&self, account: &str) -> (u128, u128, u128) {
        let l = self.get_account_lockups(account)[0];
        (l.1, l.2, l.3)
    }

    /// (total, claimed, unclaimed) of lockup `index`.
    fn lockup(&self, index: u32) -> (u128, u128, u128) {
        let v = self.contract.get_lockup(index, self.now).unwrap();
        (v.total_balance, v.claimed_balance, v.unclaimed_balance)
    }

    /// A transfer between two accounts of the token.
    fn ft_transfer(&mut self, from: &str, amount: u128, to: &str) {
        *self.balances.entry(from.to_string()).or_insert(0) -= amount;
        *self.balances.entry(to.to_string()).or_insert(0) += amount;
    }

    /// Sends `amount` into the ledger to fund a draft group; the ledger
    /// keeps it when it accepts the funding.
    fn fund_draft_group(&mut self, sender: &str, amount: u128, group: u32) -> Result<(), LockupError> {
        let r = self.contract.fund_draft_group(&sender.to_string(), amount, group);
        if r.is_ok() {
            *self.balances.entry(sender.to_string()).or_insert(0) -= amount;
        }
        r
    }

    /// (index, total, claimed, unclaimed) of each lockup listed under the account.
    fn get_account_lockups(&self, account: &str) -> Vec<(u32, u128, u128, u128)> {
        self.contract
            .get_account_lockups(&account.to_string(), self.now)
            .into_iter()
            .map(|(i, v)| (i, v.total_balance, v.claimed_balance, v.unclaimed_balance))
            .collect()
    }
}

fn linear_lockup(account: &str, start: u32, end: u32, amount: u128) -> LockupCreate {
    LockupCreate {
        account_id: account.to_string(),
        schedule: Schedule(vec![cp(start, 0), cp(end, amount)]),
        vesting_schedule: None,
    }
}

fn check_lockup_claim_logic() {
    let mut e = Env::init();
    let amount = d(10000, TOKEN_DECIMALS);
    e.set_time_sec(GENESIS_TIMESTAMP_SEC);
    assert!(e.get_account_lockups(ALICE).is_empty());
    let lockup = linear_lockup(ALICE, GENESIS_TIMESTAMP_SEC + ONE_YEAR_SEC - 1, GENESIS_TIMESTAMP_SEC + ONE_YEAR_SEC, amount);
    assert_eq!(e.add_lockup(OWNER, amount, lockup), Ok(0));
    let lockups = e.get_account_lockups(ALICE);
    assert_eq!(lockups.len(), 1);
    assert_eq!(lockups[0].1, amount);
    assert_eq!(lockups[0].2, 0);
    assert_eq!(lockups[0].3, 0);

    // Claim attempt before unlock.
    assert_eq!(e.claim(ALICE), 0);
    assert_eq!(e.get_account_lockups(ALICE)[0].2, 0);

    // Set time to the first checkpoint.
    e.set_time_sec(GENESIS_TIMESTAMP_SEC + ONE_YEAR_SEC - 1);
    let lockups = e.get_account_lockups(ALICE);
    assert_eq!(lockups[0].2, 0);
    assert_eq!(lockups[0].3, 0);

    // Set time to the second checkpoint.
    e.set_time_sec(GENESIS_TIMESTAMP_SEC + ONE_YEAR_SEC);
    let lockups = e.get_account_lockups(ALICE);
    assert_eq!(lockups[0].2, 0);
    assert_eq!(lockups[0].3, amount);

    // Attempt to claim. No storage deposit for Alice.
    assert_eq!(e.claim(ALICE), 0);
    let lockups = e.get_account_lockups(ALICE);
    assert_eq!(lockups[0].2, 0);
    assert_eq!(lockups[0].3, amount);

    e.storage_deposit(ALICE);
    assert_eq!(e.ft_balance_of(ALICE), 0);

    // Claim tokens.
    assert_eq!(e.claim(ALICE), amount);
    // User's lockups should be empty, since fully claimed.
    assert!(e.get_account_lockups(ALICE).is_empty());

    // Manually checking the lockup by index
    let lockup = e.contract.get_lockup(0, e.now).unwrap();
    assert_eq!(lockup.claimed_balance, amount);
    assert_eq!(lockup.unclaimed_balance, 0);
    assert_eq!(e.ft_balance_of(ALICE), amount);
}

fn check_lockup_linear() {
    let mut e = Env::init();
    let amount = d(60000, TOKEN_DECIMALS);
    e.set_time_sec(GENESIS_TIMESTAMP_SEC);
    assert!(e.get_account_lockups(ALICE).is_empty());
    let lockup = linear_lockup(ALICE, GENESIS_TIMESTAMP_SEC, GENESIS_TIMESTAMP_SEC + ONE_YEAR_SEC, amount);
    assert_eq!(e.add_lockup(OWNER, amount, lockup), Ok(0));
    let lockups = e.get_account_lockups(ALICE);
    assert_eq!(lockups.len(), 1);
    assert_eq!((lockups[0].1, lockups[0].2, lockups[0].3), (amount, 0, 0));

    // 1/3 unlock
    e.set_time_sec(GENESIS_TIMESTAMP_SEC + ONE_YEAR_SEC / 3);
    let lockups = e.get_account_lockups(ALICE);
    assert_eq!((lockups[0].1, lockups[0].2, lockups[0].3), (amount, 0, amount / 3));

    // Claim tokens
    e.storage_deposit(ALICE);
    assert_eq!(e.claim(ALICE), amount / 3);
    assert_eq!(e.ft_balance_of(ALICE), amount / 3);
    let lockups = e.get_account_lockups(ALICE);
    assert_eq!((lockups[0].1, lockups[0].2, lockups[0].3), (amount, amount / 3, 0));

    // 1/2 unlock
    e.set_time_sec(GENESIS_TIMESTAMP_SEC + ONE_YEAR_SEC / 2);
    let lockups = e.get_account_lockups(ALICE);
    assert_eq!((lockups[0].1, lockups[0].2, lockups[0].3), (amount, amount / 3, amount / 6));

    // Remove storage from token to verify claim refund (this burns what Alice holds).
    e.registered.remove(ALICE);
    e.balances.insert(ALICE.to_string(), 0);
    assert_eq!(e.ft_balance_of(ALICE), 0);

    // Trying to claim, should fail and refund the amount back to the lockup
    assert_eq!(e.claim(ALICE), 0);
    let lockups = e.get_account_lockups(ALICE);
    assert_eq!((lockups[0].1, lockups[0].2, lockups[0].3), (amount, amount / 3, amount / 6));

    // Claim again but with storage deposit
    e.storage_deposit(ALICE);
    assert_eq!(e.claim(ALICE), amount / 6);
    assert_eq!(e.ft_balance_of(ALICE), amount / 6);
    let lockups = e.get_account_lockups(ALICE);
    assert_eq!((lockups[0].1, lockups[0].2, lockups[0].3), (amount, amount / 2, 0));

    // 2/3 unlock
    e.set_time_sec(GENESIS_TIMESTAMP_SEC + ONE_YEAR_SEC * 2 / 3);
    let lockups = e.get_account_lockups(ALICE);
    assert_eq!((lockups[0].2, lockups[0].3), (amount / 2, amount / 6));

    assert_eq!(e.claim(ALICE), amount / 6);
    assert_eq!(e.ft_balance_of(ALICE), amount / 3);
    let lockups = e.get_account_lockups(ALICE);
    assert_eq!((lockups[0].2, lockups[0].3), (amount * 2 / 3, 0));

    // Claim again with no unclaimed_balance
    assert_eq!(e.claim(ALICE), 0);
    assert_eq!(e.ft_balance_of(ALICE), amount / 3);

    // full unlock
    e.set_time_sec(GENESIS_TIMESTAMP_SEC + ONE_YEAR_SEC);
    let lockups = e.get_account_lockups(ALICE);
    assert_eq!((lockups[0].2, lockups[0].3), (amount * 2 / 3, amount / 3));

    // Final claim
    assert_eq!(e.claim(ALICE), amount / 3);
    assert_eq!(e.ft_balance_of(ALICE), amount * 2 / 3);
    assert!(e.get_account_lockups(ALICE).is_empty());
    let lockup = e.contract.get_lockup(0, e.now).unwrap();
    assert_eq!(lockup.claimed_balance, amount);
    assert_eq!(lockup.unclaimed_balance, 0);
}

fn check_lockup_cliff_amazon() {
    let mut e = Env::init();
    let amount = d(60000, TOKEN_DECIMALS);
    e.set_time_sec(GENESIS_TIMESTAMP_SEC);
    let lockup = LockupCreate {
        account_id: ALICE.to_string(),
        schedule: Schedule(vec![
            cp(GENESIS_TIMESTAMP_SEC + ONE_YEAR_SEC - 1, 0),
            cp(GENESIS_TIMESTAMP_SEC + ONE_YEAR_SEC, amount / 10),
            cp(GENESIS_TIMESTAMP_SEC + ONE_YEAR_SEC * 2, 3 * amount / 10),
            cp(GENESIS_TIMESTAMP_SEC + ONE_YEAR_SEC * 3, 6 * amount / 10),
            cp(GENESIS_TIMESTAMP_SEC + ONE_YEAR_SEC * 4, amount),
        ]),
        vesting_schedule: None,
    };
    assert_eq!(e.add_lockup(OWNER, amount, lockup), Ok(0));
    let unclaimed = |e: &Env| e.get_account_lockups(ALICE)[0].3;
    assert_eq!(unclaimed(&e), 0);
    e.set_time_sec(GENESIS_TIMESTAMP_SEC + ONE_YEAR_SEC / 3);
    assert_eq!(unclaimed(&e), 0);
    e.set_time_sec(GENESIS_TIMESTAMP_SEC + ONE_YEAR_SEC);
    assert_eq!(unclaimed(&e), amount / 10);
    e.set_time_sec(GENESIS_TIMESTAMP_SEC + ONE_YEAR_SEC + ONE_YEAR_SEC / 2);
    assert_eq!(unclaimed(&e), 2 * amount / 10);
    e.set_time_sec(GENESIS_TIMESTAMP_SEC + ONE_YEAR_SEC * 2);
    assert_eq!(unclaimed(&e), 3 * amount / 10);
    e.set_time_sec(GENESIS_TIMESTAMP_SEC + ONE_YEAR_SEC * 2 + ONE_YEAR_SEC / 3);
    assert_eq!(unclaimed(&e), 4 * amount / 10);
    e.set_time_sec(GENESIS_TIMESTAMP_SEC + ONE_YEAR_SEC * 2 + ONE_YEAR_SEC * 2 / 3);
    assert_eq!(unclaimed(&e), 5 * amount / 10);
    e.set_time_sec(GENESIS_TIMESTAMP_SEC + ONE_YEAR_SEC * 3);
    assert_eq!(unclaimed(&e), 6 * amount / 10);
    e.set_time_sec(GENESIS_TIMESTAMP_SEC + ONE_YEAR_SEC * 3 + ONE_YEAR_SEC / 2);
    assert_eq!(unclaimed(&e), 8 * amount / 10);
    e.set_time_sec(GENESIS_TIMESTAMP_SEC + ONE_YEAR_SEC * 4);
    assert_eq!(unclaimed(&e), amount);
    e.set_time_sec(GENESIS_TIMESTAMP_SEC + ONE_YEAR_SEC * 5);
    assert_eq!(unclaimed(&e), amount);

    // attempt to claim without storage.
    assert_eq!(e.claim(ALICE), 0);
    assert_eq!(e.ft_balance_of(ALICE), 0);
    assert_eq!(unclaimed(&e), amount);

    e.storage_deposit(ALICE);
    assert_eq!(e.claim(ALICE), amount);
    assert_eq!(e.ft_balance_of(ALICE), amount);
    assert!(e.get_account_lockups(ALICE).is_empty());
    let lockup = e.contract.get_lockup(0, e.now).unwrap();
    assert_eq!(lockup.claimed_balance, amount);
    assert_eq!(lockup.unclaimed_balance, 0);
}

#[test]
fn test_init_env() {
    let e = Env::init();
    assert_eq!(e.contract.get_token_account_id(), TOKEN_ID.to_string());
    assert_eq!(e.contract.get_deposit_whitelist(), vec![OWNER.to_string()]);
    assert_eq!(e.contract.get_draft_operators_whitelist(), vec![DRAFT_OPERATOR.to_string()]);
    assert_eq!(e.contract.get_num_lockups(), 0);
}

#[test]
fn claim_test_lockup_claim_logic() {
    check_lockup_claim_logic();
}

#[test]
fn main_test_lockup_claim_logic() {
    check_lockup_claim_logic();
}

#[test]
fn claim_test_lockup_linear() {
    check_lockup_linear();
}

#[test]
fn main_test_lockup_linear() {
    check_lockup_linear();
}

#[test]
fn claim_test_lockup_cliff_amazon() {
    check_lockup_cliff_amazon();
}

#[test]
fn main_test_lockup_cliff_amazon() {
    check_lockup_cliff_amazon();
}

#[test]
fn scenario_failed_transfer_restores_claim() {
    let mut e = Env::init();
    e.set_time_sec(100);
    let lockup = linear_lockup(ALICE, 0, 100, 500);
    assert_eq!(e.add_lockup(OWNER, 500, lockup), Ok(0));
    let (total, claims) = e.contract.claim(&ALICE.to_string(), None, e.now).unwrap();
    assert_eq!(total, 500);
    assert_eq!(claims, vec![LockupClaim { index: 0, claim_amount: 500, is_final: true }]);
    assert_eq!(e.contract.get_lockup(0, e.now).unwrap().unclaimed_balance, 0);
    assert_eq!(e.contract.after_ft_transfer(&ALICE.to_string(), claims, false), 0);
    let view = e.contract.get_lockup(0, e.now).unwrap();
    assert_eq!(view.unclaimed_balance, 500);
    assert_eq!(view.claimed_balance, 0);
    assert_eq!(e.get_account_lockups(ALICE).len(), 1);
}

#[test]
fn claim_with_amounts() {
    let mut e = Env::init();
    e.set_time_sec(50);
    assert_eq!(e.add_lockup(OWNER, 100, linear_lockup(ALICE, 0, 100, 100)), Ok(0));
    assert_eq!(e.add_lockup(OWNER, 100, linear_lockup(BOB, 0, 100, 100)), Ok(1));
    let alice = ALICE.to_string();
    assert_eq!(
        e.contract.claim(&alice, Some(vec![(0, Some(60))]), e.now).map(|r| r.0),
        Err(LockupError::ClaimExceedsUnlocked { index: 0 })
    );
    assert_eq!(
        e.contract.claim(&alice, Some(vec![(1, None)]), e.now).map(|r| r.0),
        Err(LockupError::LockupNotFound)
    );
    assert_eq!(
        e.contract.claim(&alice, Some(vec![(0, Some(1)), (0, Some(1))]), e.now).map(|r| r.0),
        Err(LockupError::DuplicateLockupIndex)
    );
    let (total, claims) = e.contract.claim(&alice, Some(vec![(0, Some(20))]), e.now).unwrap();
    assert_eq!(total, 20);
    assert_eq!(claims, vec![LockupClaim { index: 0, claim_amount: 20, is_final: false }]);
    let (total, _) = e.contract.claim(&alice, Some(vec![(0, None)]), e.now).unwrap();
    assert_eq!(total, 30);
    assert_eq!(e.contract.get_lockup(0, e.now).unwrap().claimed_balance, 50);
}

#[test]
fn create_lockup_checks() {
    let mut e = Env::init();
    assert_eq!(e.add_lockup(ALICE, 100, linear_lockup(ALICE, 0, 100, 100)), Err(LockupError::NotAuthorized));
    assert_eq!(e.add_lockup(OWNER, 99, linear_lockup(ALICE, 0, 100, 100)), Err(LockupError::ScheduleInvalid));
    let msg = FtMessage::LockupCreate(linear_lockup(ALICE, 0, 100, 100));
    assert_eq!(
        e.contract.ft_on_transfer(&"other.near".to_string(), &OWNER.to_string(), 100, msg),
        Err(LockupError::UnknownToken)
    );
    let msg = FtMessage::LockupCreate(linear_lockup(ALICE, 0, 100, 100));
    assert_eq!(e.contract.ft_on_transfer(&TOKEN_ID.to_string(), &OWNER.to_string(), 100, msg), Ok(()));
    assert_eq!(e.contract.get_num_lockups(), 1);
}

fn vesting_lockup(amount: u128) -> (Schedule, Schedule) {
    let lockup_schedule = Schedule(vec![cp(1000, 0), cp(2000, amount)]);
    let vesting_schedule = Schedule(vec![cp(0, 0), cp(1000, amount)]);
    (lockup_schedule, vesting_schedule)
}

#[test]
fn scenario_terminate_with_explicit_vesting_schedule() {
    let mut e = Env::init();
    e.storage_deposit(EVE);
    e.storage_deposit(ALICE);
    assert!(e.contract.add_to_deposit_whitelist(&OWNER.to_string(), Some(EVE.to_string()), None).is_ok());
    let (lockup_schedule, vesting_schedule) = vesting_lockup(1000);
    let create = LockupCreate {
        account_id: ALICE.to_string(),
        schedule: lockup_schedule,
        vesting_schedule: Some(VestingConditions::Schedule(vesting_schedule)),
    };
    assert_eq!(e.add_lockup(EVE, 1000, create), Ok(0));
    // vested is 750 at 750
    e.set_time_sec(750);
    assert_eq!(e.terminate(ALICE, 0, None, None), Err(LockupError::NotAuthorized));
    assert_eq!(e.terminate(OWNER, 0, None, Some(749)), Err(LockupError::InvalidTerminationTimestamp));
    assert_eq!(e.terminate(OWNER, 0, None, None), Ok(250));
    assert_eq!(e.ft_balance_of(EVE), 250);
    let view = e.contract.get_lockup(0, e.now).unwrap();
    assert_eq!(view.total_balance, 750);
    // a second termination fails
    assert_eq!(e.terminate(OWNER, 0, None, None), Err(LockupError::NoTerminationConfig));
    // claims never pass 750 in aggregate
    let mut claimed = 0;
    for t in [1000u32, 1500, 1999, 2000, 3000] {
        e.set_time_sec(t);
        claimed += e.claim(ALICE);
        assert!(claimed <= 750);
    }
    assert_eq!(claimed, 750);
    assert_eq!(e.ft_balance_of(ALICE), 750);
}

#[test]
fn terminate_with_committed_schedule() {
    let mut e = Env::init();
    e.storage_deposit(OWNER);
    let (lockup_schedule, vesting_schedule) = vesting_lockup(1000);
    let create = LockupCreate {
        account_id: ALICE.to_string(),
        schedule: lockup_schedule,
        vesting_schedule: Some(VestingConditions::Hash(vesting_schedule.hash())),
    };
    assert_eq!(e.add_lockup(OWNER, 1000, create), Ok(0));
    e.set_time_sec(500);
    assert_eq!(e.terminate(OWNER, 0, None, None), Err(LockupError::RevealRequired));
    let wrong = Schedule(vec![cp(0, 0), cp(1001, 1000)]);
    assert_eq!(e.terminate(OWNER, 0, Some(wrong), None), Err(LockupError::CommitmentMismatch));
    assert_eq!(e.terminate(OWNER, 0, Some(vesting_schedule.clone()), None), Ok(500));
    assert_eq!(e.ft_balance_of(OWNER), 500);
    assert_eq!(e.contract.get_lockup(0, e.now).unwrap().total_balance, 500);
}

#[test]
fn terminate_with_incompatible_committed_schedule() {
    let mut e = Env::init();
    let (lockup_schedule, _) = vesting_lockup(1000);
    let late = Schedule(vec![cp(5000, 0), cp(5001, 1000)]);
    let create = LockupCreate {
        account_id: ALICE.to_string(),
        schedule: lockup_schedule,
        vesting_schedule: Some(VestingConditions::Hash(late.hash())),
    };
    assert_eq!(e.add_lockup(OWNER, 1000, create), Ok(0));
    e.set_time_sec(500);
    assert_eq!(
        e.terminate(OWNER, 0, Some(late), None),
        Err(LockupError::ScheduleOrderingViolation { timestamp: 2000 })
    );
}

#[test]
fn failed_termination_transfer_creates_unlocked_lockup() {
    let mut e = Env::init();
    let lockup = linear_lockup(ALICE, 0, 100, 100);
    assert_eq!(e.add_lockup(OWNER, 100, lockup), Ok(0));
    assert!(e.contract.make_lockup_terminable(OWNER.to_string(), 0).is_ok());
    e.set_time_sec(40);
    // the owner is not registered with the token: the transfer fails
    assert_eq!(e.terminate(OWNER, 0, None, None), Ok(0));
    assert_eq!(e.contract.get_num_lockups(), 2);
    let refund = e.contract.get_lockup(1, e.now).unwrap();
    assert_eq!(refund.account_id, OWNER.to_string());
    assert_eq!(refund.total_balance, 60);
    assert_eq!(refund.unclaimed_balance, 60);
    assert_eq!(e.contract.get_lockup(0, e.now).unwrap().total_balance, 40);
}

#[test]
fn terminate_before_anything_vests_empties_lockup() {
    let mut e = Env::init();
    e.storage_deposit(OWNER);
    assert_eq!(e.add_lockup(OWNER, 100, linear_lockup(ALICE, 10, 100, 100)), Ok(0));
    assert!(e.contract.make_lockup_terminable(OWNER.to_string(), 0).is_ok());
    e.set_time_sec(5);
    assert_eq!(e.terminate(OWNER, 0, None, None), Ok(100));
    assert!(e.get_account_lockups(ALICE).is_empty());
    assert_eq!(e.contract.get_lockup(0, e.now).unwrap().total_balance, 0);
}

fn draft(group: u32, account: &str, amount: u128) -> Draft {
    Draft { draft_group_id: group, lockup_create: LockupCreate::new_unlocked(account.to_string(), amount) }
}

#[test]
fn test_create_draft_group() {
    let mut e = Env::init();
    e.set_time_sec(GENESIS_TIMESTAMP_SEC);
    assert_eq!(e.contract.create_draft_group(&ALICE.to_string()), Err(LockupError::NotAuthorized));
    assert_eq!(e.contract.create_draft_group(&OWNER.to_string()), Ok(0));
    assert_eq!(e.contract.create_draft_group(&DRAFT_OPERATOR.to_string()), Ok(1));
}

#[test]
fn test_create_draft() {
    let mut e = Env::init();
    let amount = d(60000, TOKEN_DECIMALS);
    let op = DRAFT_OPERATOR.to_string();
    assert_eq!(e.contract.create_drafts(&op, vec![draft(0, ALICE, amount)]), Err(LockupError::DraftGroupNotFound));
    assert_eq!(e.contract.create_draft_group(&op), Ok(0));
    assert_eq!(e.contract.create_drafts(&ALICE.to_string(), vec![draft(0, ALICE, amount)]), Err(LockupError::NotAuthorized));
    assert_eq!(e.contract.create_drafts(&op, vec![draft(0, ALICE, amount)]), Ok(vec![0]));
    let group = e.contract.get_draft_group(0).unwrap();
    assert_eq!(group.total_amount, amount);
    assert_eq!(group.draft_indices, vec![0]);
    let view = e.contract.get_draft(0, e.now).unwrap();
    assert_eq!(view.draft_group_id, 0);
    assert_eq!(view.lockup_create.total_balance, amount);
}

#[test]
fn test_create_draft_with_zero_amount_fails() {
    let mut e = Env::init();
    let op = DRAFT_OPERATOR.to_string();
    assert_eq!(e.contract.create_draft_group(&op), Ok(0));
    assert_eq!(e.contract.create_drafts(&op, vec![draft(0, ALICE, 0)]), Err(LockupError::ZeroTotalBalance));
}

#[test]
fn test_create_drafts_batch() {
    let mut e = Env::init();
    e.set_time_sec(GENESIS_TIMESTAMP_SEC);
    let amount = d(60000, TOKEN_DECIMALS);
    let op = DRAFT_OPERATOR.to_string();
    let drafts: Vec<Draft> = vec![ALICE, BOB].iter().map(|user| draft(0, user, amount)).collect();
    assert_eq!(e.contract.create_draft_group(&op), Ok(0));
    assert_eq!(e.contract.create_drafts(&op, drafts), Ok(vec![0, 1]));
    let res = e.contract.get_draft_group(0).unwrap();
    let mut draft_indices = res.draft_indices;
    draft_indices.sort();
    assert_eq!(draft_indices, vec![0, 1]);
    assert_eq!(res.total_amount, amount * 2);
    assert_eq!(e.contract.get_draft(0, e.now).unwrap().lockup_create.account_id, ALICE.to_string());
    assert_eq!(e.contract.get_draft(1, e.now).unwrap().lockup_create.account_id, BOB.to_string());
}

#[test]
fn create_drafts_batch_is_atomic() {
    let mut e = Env::init();
    let amount = d(60000, TOKEN_DECIMALS);
    let op = DRAFT_OPERATOR.to_string();
    assert_eq!(e.contract.create_draft_group(&op), Ok(0));
    assert_eq!(e.contract.create_draft_group(&op), Ok(1));
    let drafts = vec![draft(0, ALICE, amount), draft(1, BOB, amount), draft(0, BOB, amount)];
    assert_eq!(e.contract.create_drafts(&op, drafts), Ok(vec![0, 1, 2]));
    assert_eq!(e.contract.get_draft_group(0).unwrap().total_amount, amount * 2);
    assert_eq!(e.contract.get_draft_group(1).unwrap().total_amount, amount);
    // one bad draft rejects the whole batch
    let drafts = vec![draft(0, ALICE, amount), draft(7, BOB, amount)];
    assert_eq!(e.contract.create_drafts(&op, drafts), Err(LockupError::DraftGroupNotFound));
    assert_eq!(e.contract.get_draft_group(0).unwrap().total_amount, amount * 2);
    assert_eq!(e.contract.get_next_draft_id(), 3);
    // overflow of a group's total
    let drafts = vec![draft(1, ALICE, u128::MAX)];
    assert_eq!(e.contract.create_drafts(&op, drafts), Err(LockupError::ArithmeticOverflow));
}

#[test]
fn test_fund_draft_group() {
    let mut e = Env::init();
    let amount = d(60000, TOKEN_DECIMALS);
    let op = DRAFT_OPERATOR.to_string();
    let owner = OWNER.to_string();
    assert_eq!(e.contract.create_draft_group(&op), Ok(0));
    assert!(e.contract.create_drafts(&op, vec![draft(0, ALICE, amount)]).is_ok());
    assert!(e.contract.create_drafts(&op, vec![draft(0, ALICE, amount)]).is_ok());
    assert_eq!(e.contract.fund_draft_group(&ALICE.to_string(), amount * 2, 0), Err(LockupError::NotAuthorized));
    assert_eq!(e.contract.fund_draft_group(&owner, amount, 0), Err(LockupError::AmountMismatch));
    assert_eq!(e.contract.fund_draft_group(&owner, amount * 2, 0), Ok(()));
    assert!(e.contract.get_draft_group(0).unwrap().funded, "expected draft group to be funded");
    assert_eq!(e.contract.fund_draft_group(&owner, amount * 2, 0), Err(LockupError::DraftGroupFunded));
    assert_eq!(e.contract.create_drafts(&op, vec![draft(0, ALICE, amount)]), Err(LockupError::DraftGroupFunded));
}

#[test]
fn scenario_fund_exact_sum_only() {
    let mut e = Env::init();
    let op = DRAFT_OPERATOR.to_string();
    let owner = OWNER.to_string();
    assert_eq!(e.contract.create_draft_group(&op), Ok(0));
    assert!(e.contract.create_drafts(&op, vec![draft(0, ALICE, 60000), draft(0, BOB, 60000)]).is_ok());
    assert_eq!(e.contract.fund_draft_group(&owner, 119999, 0), Err(LockupError::AmountMismatch));
    assert_eq!(e.contract.fund_draft_group(&owner, 120001, 0), Err(LockupError::AmountMismatch));
    assert!(!e.contract.get_draft_group(0).unwrap().funded);
    let funding = FtMessage::DraftGroupFunding(DraftGroupFunding { draft_group_id: 0, try_convert: None });
    assert_eq!(e.contract.ft_on_transfer(&TOKEN_ID.to_string(), &owner, 120000, funding), Ok(()));
    assert!(e.contract.get_draft_group(0).unwrap().funded);
}

#[test]
fn test_convert_draft() {
    let mut e = Env::init();
    let amount = d(60000, TOKEN_DECIMALS);
    let op = DRAFT_OPERATOR.to_string();
    assert_eq!(e.contract.get_next_draft_group_id(), 0);
    assert_eq!(e.contract.get_num_draft_groups(), 0);
    assert_eq!(e.contract.create_draft_group(&op), Ok(0));
    assert_eq!(e.contract.create_draft_group(&op), Ok(1));
    assert_eq!(e.contract.get_num_draft_groups(), 2);
    assert_eq!(e.contract.create_drafts(&op, vec![draft(0, ALICE, amount), draft(0, BOB, amount)]), Ok(vec![0, 1]));
    // not funded
    assert_eq!(e.contract.convert_drafts(vec![0]), Err(LockupError::DraftGroupNotFunded));
    assert_eq!(e.contract.fund_draft_group(&OWNER.to_string(), amount * 2, 0), Ok(()));
    assert_eq!(e.contract.convert_drafts(vec![0]), Ok(vec![0]));
    assert_eq!(e.contract.get_next_draft_id(), 2, "expected next_draft_id not changed after draft convert");
    assert!(e.contract.get_draft(0, e.now).is_none(), "expected converted draft to be deleted");
    let group = e.contract.get_draft_group(0).unwrap();
    assert_eq!(group.draft_indices, vec![1], "draft indices must be removed after convert");
    assert_eq!(group.total_amount, amount, "draft amount must be subtracted from group");
    assert_eq!(e.contract.convert_drafts(vec![0]), Err(LockupError::DraftNotFound));
    assert_eq!(e.contract.convert_drafts(vec![1]), Ok(vec![1]));
    assert!(e.contract.get_draft_group(0).is_none(), "draft group must be removed after convert");
    assert_eq!(e.contract.get_next_draft_group_id(), 2);
    assert_eq!(e.contract.get_num_draft_groups(), 1);
    let lockup = e.contract.get_lockup(0, e.now).unwrap();
    assert_eq!(lockup.account_id, ALICE.to_string());
    assert_eq!(lockup.total_balance, amount);
}

#[test]
fn test_convert_drafts_batch() {
    let mut e = Env::init();
    e.set_time_sec(GENESIS_TIMESTAMP_SEC);
    let amount = d(60000, TOKEN_DECIMALS);
    let op = DRAFT_OPERATOR.to_string();
    let charlie = "charlie.near";
    let dude = "dude.near";
    let group_0 = e.contract.create_draft_group(&op).unwrap();
    let group_1 = e.contract.create_draft_group(&op).unwrap();
    let drafts = vec![draft(group_0, ALICE, amount), draft(group_0, BOB, amount), draft(group_1, charlie, amount), draft(group_1, dude, amount)];
    assert!(e.contract.create_drafts(&op, drafts).is_ok());
    assert_eq!(e.contract.fund_draft_group(&OWNER.to_string(), amount * 2, group_0), Ok(()));
    assert_eq!(e.contract.fund_draft_group(&OWNER.to_string(), amount * 2, group_1), Ok(()));
    // convert by anyone
    let mut res = e.contract.convert_drafts(vec![3, 0, 2, 1]).unwrap();
    res.sort();
    assert_eq!(res, vec![0, 1, 2, 3]);
    let mut account_ids: Vec<String> = e.contract.get_lockups_paged(None, None, e.now).into_iter().map(|x| x.1.account_id).collect();
    account_ids.sort();
    let expected: Vec<String> = vec![ALICE, BOB, charlie, dude].iter().map(|x| x.to_string()).collect();
    assert_eq!(account_ids, expected, "wrong set of receivers");
    // a repeated draft is refused as a whole
    assert_eq!(e.contract.convert_drafts(vec![0]), Err(LockupError::DraftNotFound));
}

#[test]
fn test_draft_payer_update() {
    let mut e = Env::init();
    e.set_time_sec(GENESIS_TIMESTAMP_SEC);
    let amount = d(60000, TOKEN_DECIMALS);
    let owner = OWNER.to_string();
    let dude = "dude.near";
    assert!(e.contract.add_to_deposit_whitelist(&owner, Some(EVE.to_string()), None).is_ok());
    e.storage_deposit(EVE);
    assert!(e.contract.add_to_deposit_whitelist(&owner, Some(dude.to_string()), None).is_ok());
    e.storage_deposit(dude);
    e.balances.insert(OWNER.to_string(), amount);
    e.ft_transfer(OWNER, amount, dude);

    assert_eq!(e.contract.create_draft_group(&DRAFT_OPERATOR.to_string()), Ok(0));
    let schedule = linear_schedule(amount);
    let d0 = Draft {
        draft_group_id: 0,
        lockup_create: LockupCreate {
            account_id: ALICE.to_string(),
            schedule: schedule.clone(),
            vesting_schedule: Some(VestingConditions::Schedule(schedule.clone())),
        },
    };
    assert_eq!(e.contract.create_drafts(&EVE.to_string(), vec![d0]), Ok(vec![0]));
    assert_eq!(e.fund_draft_group(dude, amount, 0), Ok(()));
    let lockup_index = e.contract.convert_drafts(vec![0]).unwrap()[0];
    let lockups = e.contract.get_account_lockups(&ALICE.to_string(), e.now);
    assert_eq!(lockups.len(), 1);
    let config = lockups[0].1.termination_config.as_ref().expect("expected termination_config");
    assert_eq!(config.beneficiary_id, dude.to_string(), "expected beneficiary_id from draft group payer_id");

    // terminating as owner, unvested balance returns to the payer
    assert_eq!(e.terminate(OWNER, lockup_index, None, None), Ok(amount));
    assert_eq!(e.ft_balance_of(ALICE), 0);
    assert_eq!(e.ft_balance_of(EVE), 0);
    assert_eq!(e.ft_balance_of(dude), amount);
}

#[test]
fn test_delete_draft_group_before_fund() {
    let mut e = Env::init();
    let op = DRAFT_OPERATOR.to_string();
    assert_eq!(e.contract.create_draft_group(&op), Ok(0));
    assert_eq!(e.contract.create_drafts(&op, vec![draft(0, ALICE, 10), draft(0, BOB, 20)]), Ok(vec![0, 1]));
    assert!(!e.contract.get_draft_group(0).unwrap().discarded, "expected draft group not to be discarded");
    assert_eq!(e.contract.delete_drafts(vec![0]), Err(LockupError::DraftGroupNotDiscarded));
    assert_eq!(e.contract.discard_draft_group(&ALICE.to_string(), 0), Err(LockupError::NotAuthorized));
    assert_eq!(e.contract.discard_draft_group(&op, 0), Ok(()));
    assert!(e.contract.get_draft_group(0).unwrap().discarded, "expected draft group to be discarded");
    assert_eq!(e.contract.create_drafts(&op, vec![draft(0, ALICE, 10)]), Err(LockupError::DraftGroupDiscarded));
    assert_eq!(e.contract.fund_draft_group(&OWNER.to_string(), 30, 0), Err(LockupError::DraftGroupDiscarded));
    assert_eq!(e.contract.delete_drafts(vec![0]), Ok(()));
    assert!(e.contract.get_draft(0, 0).is_none(), "expected draft to be removed");
    assert_eq!(e.contract.get_draft_group(0).unwrap().total_amount, 20, "expected total amount to decrease after draft delete");
    assert_eq!(e.contract.delete_drafts(vec![1]), Ok(()));
    assert!(e.contract.get_draft_group(0).is_none(), "expected discarded draft group to be removed");
}

#[test]
fn test_delete_draft_group_before_add_drafts() {
    let mut e = Env::init();
    let op = DRAFT_OPERATOR.to_string();
    assert_eq!(e.contract.create_draft_group(&op), Ok(0));
    assert_eq!(e.contract.discard_draft_group(&op, 0), Ok(()));
    assert!(e.contract.get_draft_group(0).is_none(), "expected discarded draft group to be removed");
}

#[test]
fn test_delete_draft_group_after_fund() {
    let mut e = Env::init();
    let op = DRAFT_OPERATOR.to_string();
    assert_eq!(e.contract.create_draft_group(&op), Ok(0));
    assert_eq!(e.contract.create_drafts(&op, vec![draft(0, ALICE, 10)]), Ok(vec![0]));
    assert_eq!(e.contract.fund_draft_group(&OWNER.to_string(), 10, 0), Ok(()));
    assert_eq!(e.contract.discard_draft_group(&op, 0), Err(LockupError::DraftGroupFunded));
}

#[test]
fn group_total_matches_drafts_after_each_step() {
    let mut e = Env::init();
    let op = DRAFT_OPERATOR.to_string();
    assert_eq!(e.contract.create_draft_group(&op), Ok(0));
    let check = |e: &Env| {
        if let Some(g) = e.contract.get_draft_group(0) {
            let sum: u128 = g
                .draft_indices
                .iter()
                .map(|i| e.contract.get_draft(*i, 0).unwrap().lockup_create.total_balance)
                .sum();
            assert_eq!(g.total_amount, sum);
        }
    };
    assert!(e.contract.create_drafts(&op, vec![draft(0, ALICE, 5), draft(0, BOB, 7)]).is_ok());
    check(&e);
    assert!(e.contract.create_drafts(&op, vec![draft(0, EVE, 11)]).is_ok());
    check(&e);
    assert_eq!(e.contract.fund_draft_group(&OWNER.to_string(), 23, 0), Ok(()));
    assert!(e.contract.convert_drafts(vec![1]).is_ok());
    check(&e);
    assert!(e.contract.convert_drafts(vec![0, 2]).is_ok());
    check(&e);
}

#[test]
fn whitelist_management() {
    let mut e = Env::init();
    let owner = OWNER.to_string();
    assert_eq!(e.contract.add_to_deposit_whitelist(&ALICE.to_string(), Some(BOB.to_string()), None), Err(LockupError::NotAuthorized));
    assert_eq!(e.contract.add_to_deposit_whitelist(&owner, None, Some(vec![BOB.to_string(), EVE.to_string()])), Ok(()));
    assert_eq!(e.contract.get_deposit_whitelist().len(), 3);
    assert_eq!(e.contract.remove_from_deposit_whitelist(&owner, Some(BOB.to_string()), None), Ok(()));
    assert_eq!(e.contract.get_deposit_whitelist(), vec![OWNER.to_string(), EVE.to_string()]);
    assert_eq!(
        e.contract.remove_from_deposit_whitelist(&owner, None, Some(vec![OWNER.to_string(), EVE.to_string()])),
        Err(LockupError::EmptyWhitelist)
    );
    assert_eq!(e.contract.add_to_draft_operators_whitelist(&owner, vec![ALICE.to_string()]), Ok(()));
    assert_eq!(e.contract.create_draft_group(&ALICE.to_string()), Ok(0));
    assert_eq!(e.contract.remove_from_draft_operators_whitelist(&owner, vec![ALICE.to_string()]), Ok(()));
    assert_eq!(e.contract.create_draft_group(&ALICE.to_string()), Err(LockupError::NotAuthorized));
}

fn lockup_vesting_schedule(amount: u128) -> (Schedule, Schedule) {
    let lockup_schedule = Schedule(vec![
        cp(GENESIS_TIMESTAMP_SEC + ONE_YEAR_SEC * 2, 0),
        cp(GENESIS_TIMESTAMP_SEC + ONE_YEAR_SEC * 4, amount * 3 / 4),
        cp(GENESIS_TIMESTAMP_SEC + ONE_YEAR_SEC * 4 + 1, amount),
    ]);
    let vesting_schedule = Schedule(vec![
        cp(GENESIS_TIMESTAMP_SEC + ONE_YEAR_SEC - 1, 0),
        cp(GENESIS_TIMESTAMP_SEC + ONE_YEAR_SEC, amount / 4),
        cp(GENESIS_TIMESTAMP_SEC + ONE_YEAR_SEC * 4, amount),
    ]);
    (lockup_schedule, vesting_schedule)
}

#[test]
fn test_lockup_terminate_with_timestamp_in_future() {
    let mut e = Env::init();
    let amount = d(60000, TOKEN_DECIMALS);
    e.set_time_sec(GENESIS_TIMESTAMP_SEC);
    assert!(e.get_account_lockups(ALICE).is_empty());
    assert!(e.contract.add_to_deposit_whitelist(&OWNER.to_string(), Some(EVE.to_string()), None).is_ok());
    e.storage_deposit(EVE);
    let (lockup_schedule, vesting_schedule) = lockup_vesting_schedule(amount);
    let lockup_create = LockupCreate {
        account_id: ALICE.to_string(),
        schedule: lockup_schedule,
        vesting_schedule: Some(VestingConditions::Schedule(vesting_schedule)),
    };
    assert_eq!(e.add_lockup(EVE, amount, lockup_create), Ok(0));
    let lockups = e.get_account_lockups(ALICE);
    assert_eq!(lockups.len(), 1);
    let lockup_index = lockups[0].0;

    // before_cliff, 0 vested
    e.set_time_sec(GENESIS_TIMESTAMP_SEC + ONE_YEAR_SEC - 1);

    // try TERMINATE with past timestamp
    let res = e.terminate(OWNER, lockup_index, None, Some(GENESIS_TIMESTAMP_SEC + ONE_YEAR_SEC - 1 - 1));
    assert_eq!(res, Err(LockupError::InvalidTerminationTimestamp), "expected terminate in past to fail");

    // TERMINATE with future timestamp
    let res = e.terminate(OWNER, lockup_index, None, Some(GENESIS_TIMESTAMP_SEC + ONE_YEAR_SEC * 2));
    assert_eq!(res, Ok(amount / 2));
    assert_eq!(e.ft_balance_of(EVE), amount / 2);
    let lockups = e.get_account_lockups(ALICE);
    assert_eq!((lockups[0].1, lockups[0].2, lockups[0].3), (amount / 2, 0, 0));

    // during release of remaining schedule
    e.set_time_sec(GENESIS_TIMESTAMP_SEC + ONE_YEAR_SEC * 2 + ONE_YEAR_SEC * 2 / 3);
    assert_eq!(e.get_account_lockups(ALICE)[0].3, amount / 4);

    // end of remaining schedule
    e.set_time_sec(GENESIS_TIMESTAMP_SEC + ONE_YEAR_SEC * 3 + ONE_YEAR_SEC / 3);
    e.storage_deposit(ALICE);
    assert_eq!(e.claim(ALICE), amount / 2);
    assert_eq!(e.ft_balance_of(ALICE), amount / 2);
    assert!(e.get_account_lockups(ALICE).is_empty());
    let lockup = e.contract.get_lockup(0, e.now).unwrap();
    assert_eq!(lockup.total_balance, amount / 2);
    assert_eq!(lockup.claimed_balance, amount / 2);
    assert_eq!(lockup.unclaimed_balance, 0);
}

#[test]
fn test_view_draft_groups() {
    let mut e = Env::init();
    let op = DRAFT_OPERATOR.to_string();
    for _ in 0..3 {
        assert!(e.contract.create_draft_group(&op).is_ok());
    }
    let result = e.contract.get_draft_group(2);
    assert!(result.is_some());
    assert!(result.unwrap().draft_indices.is_empty());
    assert!(e.contract.get_draft_group(3).is_none());

    let result = e.contract.get_draft_groups_paged(None, None);
    assert_eq!(result.len(), 3);
    assert_eq!((result[0].0, result[1].0, result[2].0), (0, 1, 2));
    let result = e.contract.get_draft_groups_paged(Some(1), Some(2));
    assert_eq!(result.len(), 1);
    assert_eq!(result[0].0, 1);
    assert!(result[0].1.draft_indices.is_empty());
    let result = e.contract.get_draft_groups_paged(Some(2), Some(5));
    assert_eq!(result.len(), 1);
    assert_eq!(result[0].0, 2);
    assert!(e.contract.get_draft_groups_paged(Some(1), Some(1)).is_empty());
    assert!(e.contract.get_draft_groups_paged(Some(3), Some(1)).is_empty());
    assert!(e.contract.get_draft_groups_paged(Some(4), Some(5)).is_empty());
}

#[test]
fn test_view_drafts() {
    let mut e = Env::init();
    let amount = d(60000, TOKEN_DECIMALS);
    let op = DRAFT_OPERATOR.to_string();
    assert!(e.contract.create_draft_group(&op).is_ok());
    for _ in 0..3 {
        assert!(e.contract.create_drafts(&op, vec![draft(0, ALICE, amount)]).is_ok());
    }
    assert_eq!(e.contract.fund_draft_group(&OWNER.to_string(), amount * 3, 0), Ok(()));
    assert!(e.contract.convert_drafts(vec![0]).is_ok());
    let res = e.contract.get_drafts(vec![2, 0], e.now);
    assert_eq!(res.len(), 1);
    assert_eq!(res[0].0, 2);
    assert_eq!(res[0].1.draft_group_id, 0);
    assert_eq!(res[0].1.lockup_create.total_balance, amount);
}

#[test]
fn test_create_via_draft_batches_and_claim() {
    let mut e = Env::init();
    let amount = d(60000, TOKEN_DECIMALS);
    e.set_time_sec(GENESIS_TIMESTAMP_SEC);
    let op = DRAFT_OPERATOR.to_string();
    assert!(e.contract.create_draft_group(&op).is_ok());
    assert!(e.contract.create_drafts(&op, vec![draft(0, ALICE, amount)]).is_ok());
    assert_eq!(e.contract.fund_draft_group(&OWNER.to_string(), amount, 0), Ok(()));
    assert!(e.contract.convert_drafts(vec![0]).is_ok());
    e.storage_deposit(ALICE);
    assert_eq!(e.claim(ALICE), amount);
    assert_eq!(e.ft_balance_of(ALICE), amount);
}

#[test]
fn auto_convert_budget() {
    assert_eq!(auto_convert_gas(100_000_000_000_000, 10_000_000_000_000, Some(true)), Some(80_000_000_000_000));
    assert_eq!(auto_convert_gas(100_000_000_000_000, 10_000_000_000_000, Some(false)), None);
    assert_eq!(auto_convert_gas(100_000_000_000_000, 10_000_000_000_000, None), None);
    let tight = GAS_EXT_CALL_COST + GAS_MIN_FOR_CONVERT;
    assert_eq!(auto_convert_gas(tight, 0, Some(true)), None);
    assert_eq!(auto_convert_gas(tight + 1, 0, Some(true)), Some(GAS_MIN_FOR_CONVERT + 1));
    assert_eq!(auto_convert_gas(5, 10, Some(true)), None);
    assert_eq!(nano_to_sec(1_600_000_000_999_999_999), 1_600_000_000);
}

/// Alice's grant paid for by Eve, who is on the deposit whitelist, with the
/// given vesting conditions.
fn terminable_setup(vesting: Option<VestingConditions>, schedule: Schedule, amount: u128) -> (Env, u32) {
    let mut e = Env::init();
    e.set_time_sec(GENESIS_TIMESTAMP_SEC);
    assert!(e.get_account_lockups(ALICE).is_empty());
    assert!(e.contract.add_to_deposit_whitelist(&OWNER.to_string(), Some(EVE.to_string()), None).is_ok());
    e.storage_deposit(EVE);
    e.balances.insert(OWNER.to_string(), amount);
    e.ft_transfer(OWNER, amount, EVE);
    let lockup_create = LockupCreate { account_id: ALICE.to_string(), schedule, vesting_schedule: vesting };
    assert_eq!(e.add_lockup(EVE, amount, lockup_create), Ok(0));
    e.ft_transfer(EVE, amount, TOKEN_ID);
    let lockups = e.get_account_lockups(ALICE);
    assert_eq!(lockups.len(), 1);
    let index = lockups[0].0;
    (e, index)
}

fn linear_schedule(amount: u128) -> Schedule {
    Schedule(vec![cp(GENESIS_TIMESTAMP_SEC, 0), cp(GENESIS_TIMESTAMP_SEC + ONE_YEAR_SEC, amount)])
}

#[test]
fn test_terminate_basic_payer_logic() {
    let amount = d(60000, TOKEN_DECIMALS);
    let schedule = linear_schedule(amount);
    let (mut e, lockup_index) = terminable_setup(
        Some(VestingConditions::Schedule(schedule.clone())),
        schedule.clone(),
        amount,
    );
    // receiver cannot terminate
    assert_eq!(e.terminate(ALICE, lockup_index, None, None), Err(LockupError::NotAuthorized));
    // random user cannot terminate
    assert_eq!(e.terminate(BOB, lockup_index, None, None), Err(LockupError::NotAuthorized));
    // non-payer operator can terminate the lockup; the payer receives the unvested balance
    assert_eq!(e.terminate(OWNER, lockup_index, None, None), Ok(amount));
    assert_eq!(e.ft_balance_of(EVE), amount);
    assert_eq!(e.ft_balance_of(ALICE), 0);

    // lockup without terminator creates successfully
    let lockup_create = LockupCreate { account_id: ALICE.to_string(), schedule: schedule.clone(), vesting_schedule: None };
    assert_eq!(e.add_lockup(OWNER, amount, lockup_create), Ok(1));
    let lockups = e.get_account_lockups(ALICE);
    assert_eq!(lockups.len(), 1);
    let lockup_index = lockups[0].0;
    // cannot terminate a lockup without termination config
    assert_eq!(e.terminate(OWNER, lockup_index, None, None), Err(LockupError::NoTerminationConfig));

    // creating lockup for user without storage deposit
    let lockup_create = LockupCreate {
        account_id: BOB.to_string(),
        schedule: schedule.clone(),
        vesting_schedule: Some(VestingConditions::Schedule(schedule.clone())),
    };
    assert_eq!(e.add_lockup(OWNER, amount, lockup_create), Ok(2));
    let lockups = e.get_account_lockups(BOB);
    assert_eq!(lockups.len(), 1);
    let lockup_index = lockups[0].0;
    // terminate with no storage deposit creates an unlocked lockup
    e.registered.remove(OWNER);
    assert_eq!(e.terminate(OWNER, lockup_index, None, None), Ok(0));
    let lockups = e.get_account_lockups(OWNER);
    assert_eq!(lockups.len(), 1);
    assert_eq!(lockups[0].3, amount);
    assert_eq!(e.ft_balance_of(ALICE), 0);
}

#[test]
fn test_lockup_terminate_no_vesting_schedule() {
    let amount = d(60000, TOKEN_DECIMALS);
    let (mut e, lockup_index) =
        terminable_setup(Some(VestingConditions::SameAsLockupSchedule), linear_schedule(amount), amount);
    assert_eq!(e.first(ALICE), (amount, 0, 0));

    // 1/3 unlock
    e.set_time_sec(GENESIS_TIMESTAMP_SEC + ONE_YEAR_SEC / 3);
    assert_eq!(e.first(ALICE), (amount, 0, amount / 3));

    // Claim tokens
    e.storage_deposit(ALICE);
    assert_eq!(e.claim(ALICE), amount / 3);
    assert_eq!(e.ft_balance_of(ALICE), amount / 3);
    assert_eq!(e.first(ALICE), (amount, amount / 3, 0));

    // 1/2 unlock
    e.set_time_sec(GENESIS_TIMESTAMP_SEC + ONE_YEAR_SEC / 2);
    assert_eq!(e.first(ALICE), (amount, amount / 3, amount / 6));

    // TERMINATE
    assert_eq!(e.terminate(OWNER, lockup_index, None, None), Ok(amount / 2));
    assert_eq!(e.ft_balance_of(EVE), amount / 2);

    // full unlock 2 / 3 period after termination before initial timestamp
    e.set_time_sec(GENESIS_TIMESTAMP_SEC + ONE_YEAR_SEC * 2 / 3);
    let l = e.first(ALICE);
    assert_eq!((l.1, l.2), (amount / 3, amount / 6));

    // Final claim
    assert_eq!(e.claim(ALICE), amount / 6);
    assert_eq!(e.ft_balance_of(ALICE), amount / 2);
    assert!(e.get_account_lockups(ALICE).is_empty());
    let l = e.lockup(0);
    assert_eq!((l.1, l.2), (amount / 2, 0));
}

#[test]
fn test_lockup_linear_with_same_termination_schedule() {
    let amount = d(60000, TOKEN_DECIMALS);
    let (mut e, lockup_index) =
        terminable_setup(Some(VestingConditions::SameAsLockupSchedule), linear_schedule(amount), amount);
    assert_eq!(e.first(ALICE), (amount, 0, 0));
    e.set_time_sec(GENESIS_TIMESTAMP_SEC + ONE_YEAR_SEC / 3);
    assert_eq!(e.first(ALICE), (amount, 0, amount / 3));
    e.storage_deposit(ALICE);
    assert_eq!(e.claim(ALICE), amount / 3);
    assert_eq!(e.ft_balance_of(ALICE), amount / 3);
    assert_eq!(e.first(ALICE), (amount, amount / 3, 0));
    e.set_time_sec(GENESIS_TIMESTAMP_SEC + ONE_YEAR_SEC / 2);
    assert_eq!(e.first(ALICE), (amount, amount / 3, amount / 6));
    // TERMINATE by the payer
    assert_eq!(e.terminate(EVE, lockup_index, None, None), Ok(amount / 2));
    assert_eq!(e.ft_balance_of(EVE), amount / 2);
    e.set_time_sec(GENESIS_TIMESTAMP_SEC + ONE_YEAR_SEC * 2 / 3);
    let l = e.first(ALICE);
    assert_eq!((l.1, l.2), (amount / 3, amount / 6));
    assert_eq!(e.claim(ALICE), amount / 6);
    assert_eq!(e.ft_balance_of(ALICE), amount / 2);
    assert!(e.get_account_lockups(ALICE).is_empty());
    let l = e.lockup(0);
    assert_eq!((l.1, l.2), (amount / 2, 0));
}

#[test]
fn test_lockup_terminate_custom_vesting_hash() {
    let amount = d(60000, TOKEN_DECIMALS);
    let (lockup_schedule, vesting_schedule) = lockup_vesting_schedule(amount);
    let vesting_hash = e_hash(&vesting_schedule);
    let (mut e, lockup_index) =
        terminable_setup(Some(VestingConditions::Hash(vesting_hash)), lockup_schedule, amount);

    // 1Y, 1 / 4 vested, 0 unlocked
    e.set_time_sec(GENESIS_TIMESTAMP_SEC + ONE_YEAR_SEC);
    assert_eq!(e.first(ALICE), (amount, 0, 0));

    // TERMINATE
    assert_eq!(e.terminate(OWNER, lockup_index, Some(vesting_schedule), None), Ok(amount * 3 / 4));
    assert_eq!(e.ft_balance_of(EVE), amount * 3 / 4);
    assert_eq!(e.first(ALICE), (amount / 4, 0, 0));

    // Rewind to 2Y + Y * 2 / 3, 1/4 of the full unlock, full vested unlock
    e.set_time_sec(GENESIS_TIMESTAMP_SEC + ONE_YEAR_SEC * 2 + ONE_YEAR_SEC * 2 / 3);
    assert_eq!(e.first(ALICE), (amount / 4, 0, amount / 4));

    e.storage_deposit(ALICE);
    assert_eq!(e.claim(ALICE), amount / 4);
    assert!(e.get_account_lockups(ALICE).is_empty());
    assert_eq!(e.lockup(lockup_index), (amount / 4, amount / 4, 0));
}

fn e_hash(schedule: &Schedule) -> [u8; 32] {
    Env::init().contract.hash_schedule(schedule.clone())
}

#[test]
fn test_lockup_terminate_custom_vesting_invalid_hash() {
    let amount = d(60000, TOKEN_DECIMALS);
    let (lockup_schedule, vesting_schedule) = lockup_vesting_schedule(amount);
    let vesting_hash = e_hash(&vesting_schedule);
    let (mut e, lockup_index) =
        terminable_setup(Some(VestingConditions::Hash(vesting_hash)), lockup_schedule, amount);
    e.set_time_sec(GENESIS_TIMESTAMP_SEC + ONE_YEAR_SEC);
    assert_eq!(e.first(ALICE), (amount, 0, 0));
    let fake_schedule = Schedule(vec![
        cp(GENESIS_TIMESTAMP_SEC + ONE_YEAR_SEC * 2, 0),
        cp(GENESIS_TIMESTAMP_SEC + ONE_YEAR_SEC * 4, amount),
    ]);
    assert_eq!(
        e.terminate(OWNER, lockup_index, Some(fake_schedule), None),
        Err(LockupError::CommitmentMismatch)
    );
}

#[test]
fn test_lockup_terminate_custom_vesting_incompatible_vesting_schedule_by_hash() {
    let amount = d(60000, TOKEN_DECIMALS);
    let (lockup_schedule, _vesting_schedule) = lockup_vesting_schedule(amount);
    let incompatible_vesting_schedule = Schedule(vec![
        cp(GENESIS_TIMESTAMP_SEC + ONE_YEAR_SEC * 4, 0),
        cp(GENESIS_TIMESTAMP_SEC + ONE_YEAR_SEC * 4 + 1, amount),
    ]);
    let hash = e_hash(&incompatible_vesting_schedule);
    let (mut e, lockup_index) = terminable_setup(Some(VestingConditions::Hash(hash)), lockup_schedule, amount);
    e.set_time_sec(GENESIS_TIMESTAMP_SEC + ONE_YEAR_SEC);
    assert_eq!(e.first(ALICE), (amount, 0, 0));
    let res = e.terminate(OWNER, lockup_index, Some(incompatible_vesting_schedule), None);
    assert!(matches!(res, Err(LockupError::ScheduleOrderingViolation { .. })));
}

fn check_terminate_before_cliff() {
    let amount = d(60000, TOKEN_DECIMALS);
    let (lockup_schedule, vesting_schedule) = lockup_vesting_schedule(amount);
    let (mut e, lockup_index) =
        terminable_setup(Some(VestingConditions::Schedule(vesting_schedule)), lockup_schedule, amount);
    // 1Y - 1 before cliff termination
    e.set_time_sec(GENESIS_TIMESTAMP_SEC + ONE_YEAR_SEC - 1);
    assert_eq!(e.first(ALICE), (amount, 0, 0));
    assert_eq!(e.terminate(OWNER, lockup_index, None, None), Ok(amount));
    assert_eq!(e.ft_balance_of(EVE), amount);
    assert!(e.get_account_lockups(ALICE).is_empty());
    assert_eq!(e.lockup(lockup_index), (0, 0, 0));
    assert_eq!(e.claim(ALICE), 0);
    assert_eq!(e.ft_balance_of(ALICE), 0);
}

#[test]
fn terminate_test_lockup_terminate_custom_vesting_terminate_before_cliff() {
    check_terminate_before_cliff();
}

#[test]
fn main_test_lockup_terminate_custom_vesting_terminate_before_cliff() {
    check_terminate_before_cliff();
}

#[test]
fn test_lockup_terminate_custom_vesting_before_release() {
    let amount = d(60000, TOKEN_DECIMALS);
    let (lockup_schedule, vesting_schedule) = lockup_vesting_schedule(amount);
    let (mut e, lockup_index) =
        terminable_setup(Some(VestingConditions::Schedule(vesting_schedule)), lockup_schedule, amount);
    e.set_time_sec(GENESIS_TIMESTAMP_SEC + ONE_YEAR_SEC);
    assert_eq!(e.first(ALICE), (amount, 0, 0));
    assert_eq!(e.terminate(OWNER, lockup_index, None, None), Ok(amount * 3 / 4));
    assert_eq!(e.ft_balance_of(EVE), amount * 3 / 4);
    assert_eq!(e.first(ALICE), (amount / 4, 0, 0));
    e.storage_deposit(ALICE);
    assert_eq!(e.claim(ALICE), 0);
    // Rewind to 2Y + Y/3, 1/8 of the full schedule should be unlocked
    e.set_time_sec(GENESIS_TIMESTAMP_SEC + ONE_YEAR_SEC * 2 + ONE_YEAR_SEC / 3);
    assert_eq!(e.first(ALICE), (amount / 4, 0, amount / 8));
    assert_eq!(e.claim(ALICE), amount / 8);
    // Rewind to 2Y + Y * 2 / 3, 1/4 of the full unlock, full vested unlock
    e.set_time_sec(GENESIS_TIMESTAMP_SEC + ONE_YEAR_SEC * 2 + ONE_YEAR_SEC * 2 / 3);
    assert_eq!(e.first(ALICE), (amount / 4, amount / 8, amount / 8));
    assert_eq!(e.claim(ALICE), amount / 8);
    assert!(e.get_account_lockups(ALICE).is_empty());
    assert_eq!(e.lockup(lockup_index), (amount / 4, amount / 4, 0));
}

#[test]
fn test_lockup_terminate_custom_vesting_during_release() {
    let amount = d(60000, TOKEN_DECIMALS);
    let (lockup_schedule, vesting_schedule) = lockup_vesting_schedule(amount);
    let (mut e, lockup_index) =
        terminable_setup(Some(VestingConditions::Schedule(vesting_schedule)), lockup_schedule, amount);
    e.set_time_sec(GENESIS_TIMESTAMP_SEC + ONE_YEAR_SEC * 2 + ONE_YEAR_SEC / 3);
    assert_eq!(e.first(ALICE), (amount, 0, amount / 8));
    e.storage_deposit(ALICE);
    assert_eq!(e.claim(ALICE), amount / 8);
    // TERMINATE, 2Y + Y / 2, 5/8 vested
    e.set_time_sec(GENESIS_TIMESTAMP_SEC + ONE_YEAR_SEC * 2 + ONE_YEAR_SEC / 2);
    assert_eq!(e.terminate(OWNER, lockup_index, None, None), Ok(amount * 3 / 8));
    assert_eq!(e.ft_balance_of(EVE), amount * 3 / 8);
    assert_eq!(e.first(ALICE), (amount * 5 / 8, amount / 8, amount / 16));
    e.set_time_sec(GENESIS_TIMESTAMP_SEC + ONE_YEAR_SEC * 2 + ONE_YEAR_SEC * 2 / 3);
    assert_eq!(e.first(ALICE), (amount * 5 / 8, amount / 8, amount / 8));
    assert_eq!(e.claim(ALICE), amount / 8);
    e.set_time_sec(GENESIS_TIMESTAMP_SEC + ONE_YEAR_SEC * 3 + ONE_YEAR_SEC * 2 / 3);
    assert_eq!(e.first(ALICE), (amount * 5 / 8, amount * 2 / 8, amount * 3 / 8));
    assert_eq!(e.claim(ALICE), amount * 3 / 8);
    assert!(e.get_account_lockups(ALICE).is_empty());
    assert_eq!(e.lockup(lockup_index), (amount * 5 / 8, amount * 5 / 8, 0));
}

#[test]
fn test_lockup_terminate_custom_vesting_during_lockup_cliff() {
    let amount = d(60000, TOKEN_DECIMALS);
    let (lockup_schedule, vesting_schedule) = lockup_vesting_schedule(amount);
    let (mut e, lockup_index) =
        terminable_setup(Some(VestingConditions::Schedule(vesting_schedule)), lockup_schedule, amount);
    e.set_time_sec(GENESIS_TIMESTAMP_SEC + ONE_YEAR_SEC * 2 + ONE_YEAR_SEC * 2 / 3);
    assert_eq!(e.first(ALICE), (amount, 0, amount / 4));
    e.storage_deposit(ALICE);
    assert_eq!(e.claim(ALICE), amount / 4);
    // TERMINATE, 3Y + Y / 3, 5/6 vested
    e.set_time_sec(GENESIS_TIMESTAMP_SEC + ONE_YEAR_SEC * 3 + ONE_YEAR_SEC / 3);
    assert_eq!(e.terminate(OWNER, lockup_index, None, None), Ok(amount / 6));
    assert_eq!(e.ft_balance_of(EVE), amount / 6);
    assert_eq!(e.first(ALICE), (amount * 5 / 6, amount / 4, amount / 4));
    assert_eq!(e.claim(ALICE), amount / 4);
    e.set_time_sec(GENESIS_TIMESTAMP_SEC + ONE_YEAR_SEC * 4);
    assert_eq!(e.first(ALICE), (amount * 5 / 6, amount * 1 / 2, amount * 1 / 4));
    e.set_time_sec(GENESIS_TIMESTAMP_SEC + ONE_YEAR_SEC * 4 + 1);
    assert_eq!(e.first(ALICE), (amount * 5 / 6, amount * 1 / 2, amount * 1 / 3));
    assert_eq!(e.claim(ALICE), amount * 1 / 3);
    assert!(e.get_account_lockups(ALICE).is_empty());
    assert_eq!(e.lockup(lockup_index), (amount * 5 / 6, amount * 5 / 6, 0));
}

#[test]
fn test_lockup_terminate_custom_vesting_after_vesting_finished() {
    let amount = d(60000, TOKEN_DECIMALS);
    let (lockup_schedule, vesting_schedule) = lockup_vesting_schedule(amount);
    let (mut e, lockup_index) =
        terminable_setup(Some(VestingConditions::Schedule(vesting_schedule)), lockup_schedule, amount);
    e.set_time_sec(GENESIS_TIMESTAMP_SEC + ONE_YEAR_SEC * 2 + ONE_YEAR_SEC * 2 / 3);
    assert_eq!(e.first(ALICE), (amount, 0, amount / 4));
    e.storage_deposit(ALICE);
    assert_eq!(e.claim(ALICE), amount / 4);
    // TERMINATE, 4Y, fully vested
    e.set_time_sec(GENESIS_TIMESTAMP_SEC + ONE_YEAR_SEC * 4);
    assert_eq!(e.terminate(OWNER, lockup_index, None, None), Ok(0));
    assert_eq!(e.ft_balance_of(EVE), 0);
    assert_eq!(e.first(ALICE), (amount, amount / 4, amount / 2));
    assert_eq!(e.claim(ALICE), amount / 2);
    e.set_time_sec(GENESIS_TIMESTAMP_SEC + ONE_YEAR_SEC * 4 + 1);
    assert_eq!(e.first(ALICE), (amount, amount * 3 / 4, amount * 1 / 4));
    assert_eq!(e.claim(ALICE), amount * 1 / 4);
    assert!(e.get_account_lockups(ALICE).is_empty());
    assert_eq!(e.lockup(lockup_index), (amount, amount, 0));
}

#[test]
fn test_lockup_terminate_with_timestamp_in_future_no_storage_deposit() {
    let amount = d(60000, TOKEN_DECIMALS);
    let schedule = linear_schedule(amount);
    let (mut e, lockup_index) =
        terminable_setup(Some(VestingConditions::Schedule(schedule.clone())), schedule, amount);
    e.registered.remove(EVE);
    // terminate with no storage deposit creates unlocked lockup
    let termination_call_timestamp = GENESIS_TIMESTAMP_SEC + ONE_YEAR_SEC * 1 / 3;
    let termination_effective_timestamp = GENESIS_TIMESTAMP_SEC + ONE_YEAR_SEC * 2 / 3;
    e.set_time_sec(termination_call_timestamp);
    assert_eq!(e.terminate(EVE, lockup_index, None, Some(termination_effective_timestamp)), Ok(0));
    let lockups = e.contract.get_account_lockups(&EVE.to_string(), e.now);
    assert_eq!(lockups.len(), 1);
    let lockup = &lockups[0].1;
    assert_eq!(lockup.unclaimed_balance, amount / 3);
    assert_eq!(lockup.total_balance, amount / 3);
    assert_eq!(e.ft_balance_of(ALICE), 0);
    // must be unlocked since the moment of termination
    assert_eq!(lockup.schedule.0[0].balance, 0);
    assert_eq!(
        lockup.schedule.0[0].timestamp,
        termination_call_timestamp - 1,
        "expected refund finish first timestamp one second before the termination"
    );
    assert_eq!(lockup.schedule.0[1].balance, amount / 3);
    assert_eq!(
        lockup.schedule.0[1].timestamp,
        termination_call_timestamp,
        "expected refund finish to be at termination timestamp"
    );
}

#[test]
fn test_deposit_whitelist_get_single() {
    let mut e = Env::init();
    e.set_time_sec(GENESIS_TIMESTAMP_SEC);
    // deposit whitelist has owner by default
    assert_eq!(e.contract.get_deposit_whitelist(), vec![OWNER.to_string()]);
    // user from whitelist can add other users
    assert!(e.contract.add_to_deposit_whitelist(&OWNER.to_string(), Some(EVE.to_string()), None).is_ok());
    assert_eq!(e.contract.get_deposit_whitelist(), vec![OWNER.to_string(), EVE.to_string()]);
    // user from whitelist can remove other users
    assert!(e.contract.remove_from_deposit_whitelist(&EVE.to_string(), Some(OWNER.to_string()), None).is_ok());
    assert_eq!(e.contract.get_deposit_whitelist(), vec![EVE.to_string()]);
}

#[test]
fn test_deposit_whitelist_get() {
    let mut e = Env::init();
    let amount = d(1, TOKEN_DECIMALS);
    e.set_time_sec(GENESIS_TIMESTAMP_SEC);
    assert!(e.get_account_lockups(ALICE).is_empty());
    assert_eq!(e.contract.get_deposit_whitelist(), vec![OWNER.to_string()]);
    // user from whitelist can create lockups
    let lockup_create = || LockupCreate {
        account_id: ALICE.to_string(),
        schedule: Schedule(vec![cp(0, 0), cp(1, amount)]),
        vesting_schedule: None,
    };
    assert_eq!(e.add_lockup(OWNER, amount, lockup_create()), Ok(0));
    assert_eq!(e.get_account_lockups(ALICE).len(), 1);
    // user from whitelist can add other users
    assert!(e.contract.add_to_deposit_whitelist(&OWNER.to_string(), None, Some(vec![EVE.to_string()])).is_ok());
    assert_eq!(e.contract.get_deposit_whitelist(), vec![OWNER.to_string(), EVE.to_string()]);
    // user from whitelist can remove other users
    assert!(e.contract.remove_from_deposit_whitelist(&EVE.to_string(), None, Some(vec![OWNER.to_string()])).is_ok());
    assert_eq!(e.contract.get_deposit_whitelist(), vec![EVE.to_string()]);
    // user not from whitelist cannot add users
    assert_eq!(
        e.contract.add_to_deposit_whitelist(&OWNER.to_string(), None, Some(vec!["dude.near".to_string()])),
        Err(LockupError::NotAuthorized)
    );
    // user not from whitelist cannot remove users
    assert_eq!(
        e.contract.remove_from_deposit_whitelist(&OWNER.to_string(), None, Some(vec![EVE.to_string()])),
        Err(LockupError::NotAuthorized)
    );
    // user not in whitelist cannot create lockups
    assert_eq!(e.add_lockup(OWNER, amount, lockup_create()), Err(LockupError::NotAuthorized));
    assert_eq!(e.get_account_lockups(ALICE).len(), 1);
    // try remove last user from the list, should fail
    assert_eq!(
        e.contract.remove_from_deposit_whitelist(&EVE.to_string(), None, Some(vec![EVE.to_string()])),
        Err(LockupError::EmptyWhitelist)
    );
}

#[test]
fn test_draft_operator_lockup_permissions() {
    let mut e = Env::init();
    e.set_time_sec(GENESIS_TIMESTAMP_SEC);
    let amount = d(60000, TOKEN_DECIMALS);
    let schedule = linear_schedule(amount);
    let lockup_create = || LockupCreate {
        account_id: ALICE.to_string(),
        schedule: schedule.clone(),
        vesting_schedule: Some(VestingConditions::Schedule(schedule.clone())),
    };
    // draft_operator cannot create lockups
    assert_eq!(e.add_lockup(DRAFT_OPERATOR, amount, lockup_create()), Err(LockupError::NotAuthorized));
    // create lockup by owner
    assert_eq!(e.add_lockup(OWNER, amount, lockup_create()), Ok(0));
    let lockups = e.get_account_lockups(ALICE);
    assert_eq!(lockups.len(), 1);
    let lockup_index = lockups[0].0;
    // draft_operator cannot terminate lockups
    assert_eq!(e.terminate(DRAFT_OPERATOR, lockup_index, None, None), Err(LockupError::NotAuthorized));
    let op = DRAFT_OPERATOR.to_string();
    assert!(e.contract.create_draft_group(&op).is_ok());
    assert!(e.contract.create_drafts(&op, vec![draft(0, ALICE, amount)]).is_ok());
    // fund draft group by draft operator should fail
    assert_eq!(e.contract.fund_draft_group(&op, amount, 0), Err(LockupError::NotAuthorized));
}

#[test]
fn test_draft_operator_permission_updates() {
    let mut e = Env::init();
    e.set_time_sec(GENESIS_TIMESTAMP_SEC);
    let c = &mut e.contract;
    let owner = OWNER.to_string();
    let op = DRAFT_OPERATOR.to_string();
    let eve = EVE.to_string();
    // draft operator cannot control permissions for deposit
    assert_eq!(c.add_to_deposit_whitelist(&op, None, Some(vec![owner.clone()])), Err(LockupError::NotAuthorized));
    assert_eq!(c.remove_from_deposit_whitelist(&op, None, Some(vec![owner.clone()])), Err(LockupError::NotAuthorized));
    // draft operator cannot control permissions for draft operators
    assert_eq!(c.add_to_draft_operators_whitelist(&op, vec![eve.clone()]), Err(LockupError::NotAuthorized));
    assert_eq!(c.remove_from_draft_operators_whitelist(&op, vec![eve.clone()]), Err(LockupError::NotAuthorized));
    // deposit_whitelist can add draft_operators
    assert!(c.add_to_draft_operators_whitelist(&owner, vec![eve.clone()]).is_ok());
    assert_eq!(c.get_deposit_whitelist(), vec![owner.clone()]);
    let mut res = c.get_draft_operators_whitelist();
    res.sort();
    assert_eq!(res, vec![op.clone(), eve.clone()]);
    // deposit can remove draft operators
    assert!(c.remove_from_draft_operators_whitelist(&owner, vec![op.clone()]).is_ok());
    assert_eq!(c.get_draft_operators_whitelist(), vec![eve.clone()]);
    // new draft operator can create draft groups
    assert!(c.create_draft_group(&eve).is_ok());
    // old draft operator cannot create draft groups
    assert_eq!(c.create_draft_group(&op), Err(LockupError::NotAuthorized));
    // new draft operator is NOT deposit, cannot manage users
    assert_eq!(c.add_to_draft_operators_whitelist(&eve, vec!["dude.near".to_string()]), Err(LockupError::NotAuthorized));
    // role presence in both lists
    assert!(c.add_to_draft_operators_whitelist(&owner, vec![owner.clone()]).is_ok());
    let mut res = c.get_draft_operators_whitelist();
    res.sort();
    assert_eq!(res, vec![eve.clone(), owner.clone()]);
    let mut res = c.get_deposit_whitelist();
    res.sort();
    assert_eq!(res, vec![owner.clone()]);
    // user still has deposit abilities
    let amount = d(60000, TOKEN_DECIMALS);
    let lockup_create = || LockupCreate::new_unlocked(ALICE.to_string(), amount);
    assert_eq!(c.create_lockup(&owner, amount, lockup_create()), Ok(0));
    // adding new depositor, it's not allowed to remove every deposit_whitelist
    assert!(c.add_to_deposit_whitelist(&owner, Some("charlie.near".to_string()), None).is_ok());
    // removing deposit role, draft operator role must be retained
    assert!(c.remove_from_deposit_whitelist(&owner, Some(owner.clone()), None).is_ok());
    assert_eq!(c.get_deposit_whitelist(), vec!["charlie.near".to_string()]);
    assert_eq!(c.get_draft_operators_whitelist(), vec![eve.clone(), owner.clone()]);
    // deposit role must be removed
    assert_eq!(c.create_lockup(&owner, amount, lockup_create()), Err(LockupError::NotAuthorized));
    // draft operator role is retained
    assert!(c.create_draft_group(&owner).is_ok());
}

#[test]
fn test_fund_draft_group_with_convert() {
    let mut e = Env::init();
    e.set_time_sec(GENESIS_TIMESTAMP_SEC);
    let amount = d(60000, TOKEN_DECIMALS);
    let owner = OWNER.to_string();
    assert!(e.contract.create_draft_group(&owner).is_ok());
    assert!(e.contract.create_drafts(&owner, vec![draft(0, ALICE, amount)]).is_ok());
    // fund draft group, asking to convert right away
    let funding = FtMessage::DraftGroupFunding(DraftGroupFunding { draft_group_id: 0, try_convert: Some(true) });
    assert_eq!(e.contract.ft_on_transfer(&TOKEN_ID.to_string(), &owner, amount, funding), Ok(()));
    let gas = auto_convert_gas(300_000_000_000_000, 20_000_000_000_000, Some(true));
    assert!(gas.is_some());
    let ids = e.contract.get_draft_group(0).unwrap().draft_indices;
    assert!(e.contract.convert_drafts(ids).is_ok());
    assert!(e.contract.get_draft_group(0).is_none(), "expected draft group to be removed");
    assert_eq!(e.contract.get_lockups_paged(None, None, e.now).len(), 1);
    assert!(e.contract.get_draft(0, e.now).is_none(), "expected draft to be converted");
    assert_eq!(e.contract.get_draft_groups_paged(None, None).len(), 0, "expected draft group to be removed");
}

#[test]
fn single_draft_entry_points() {
    let mut e = Env::init();
    let op = DRAFT_OPERATOR.to_string();
    assert_eq!(e.contract.create_draft_group(&op), Ok(0));
    assert_eq!(e.contract.create_draft(&op, draft(0, ALICE, 10)), Ok(0));
    assert_eq!(e.contract.create_draft(&op, draft(0, BOB, 15)), Ok(1));
    assert_eq!(e.contract.convert_draft(0), Err(LockupError::DraftGroupNotFunded));
    assert_eq!(e.contract.fund_draft_group(&OWNER.to_string(), 25, 0), Ok(()));
    assert_eq!(e.contract.convert_draft(1), Ok(0));
    assert_eq!(e.contract.get_lockup(0, 0).unwrap().account_id, BOB.to_string());
    assert_eq!(e.contract.get_draft_group(0).unwrap().total_amount, 10);
}

#[test]
fn test_fund_draft_group_with_convert_too_big_group() {
    let mut e = Env::init();
    e.set_time_sec(GENESIS_TIMESTAMP_SEC);
    let amount = d(600, TOKEN_DECIMALS);
    let owner = OWNER.to_string();
    assert!(e.contract.create_draft_group(&owner).is_ok());
    let n_drafts = 100;
    // intentionally create too big draft group to convert with restricted gas
    let drafts: Vec<Draft> = (0..n_drafts).map(|_| draft(0, ALICE, amount)).collect();
    assert!(e.contract.create_drafts(&owner, drafts).is_ok());

    // fund draft group, asking to convert right away
    let funding = FtMessage::DraftGroupFunding(DraftGroupFunding { draft_group_id: 0, try_convert: Some(true) });
    assert_eq!(
        e.contract.ft_on_transfer(&TOKEN_ID.to_string(), &owner, amount * (n_drafts as u128), funding),
        Ok(())
    );
    // the conversion is attempted with what is left of the budget...
    let gas = auto_convert_gas(300_000_000_000_000, 250_000_000_000_000, Some(true));
    assert_eq!(gas, Some(40_000_000_000_000));
    // ...and runs out of it on the host, so the call applies nothing.

    let res = e.contract.get_draft_group(0);
    assert!(res.is_some(), "expected draft group to not be removed");
    assert!(res.unwrap().funded, "expected draft group to be funded");
    assert_eq!(e.contract.get_lockups_paged(None, None, e.now).len(), 0);
    assert!(e.contract.get_draft(0, e.now).is_some(), "expected draft not to be converted");
    assert_eq!(e.contract.get_draft_groups_paged(None, None).len(), 1, "expected draft group not to be removed");
}

#[test]
fn convert_and_delete_drop_emptied_groups_only() {
    let mut e = Env::init();
    let op = DRAFT_OPERATOR.to_string();
    assert_eq!(e.contract.create_draft_group(&op), Ok(0));
    assert_eq!(e.contract.create_draft_group(&op), Ok(1));
    assert_eq!(e.contract.create_draft_group(&op), Ok(2));
    assert!(e.contract.create_drafts(&op, vec![draft(0, ALICE, 1), draft(0, BOB, 2), draft(1, EVE, 3)]).is_ok());
    assert_eq!(e.contract.fund_draft_group(&OWNER.to_string(), 3, 0), Ok(()));
    assert_eq!(e.contract.fund_draft_group(&OWNER.to_string(), 3, 1), Ok(()));
    assert!(e.contract.convert_drafts(vec![2, 0]).is_ok());
    assert!(e.contract.get_draft_group(1).is_none());
    let g0 = e.contract.get_draft_group(0).unwrap();
    assert_eq!((g0.draft_indices, g0.total_amount), (vec![1], 2));
    // an empty group that no draft of the batch touched stays
    assert!(e.contract.get_draft_group(2).is_some());
    assert_eq!(e.contract.discard_draft_group(&op, 2), Ok(()));
    assert!(e.contract.get_draft_group(2).is_none());
    assert_eq!(e.contract.get_draft_groups_paged(Some(0), Some(1)).len(), 1);
}
