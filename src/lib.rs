//! Token lockup ledger: piecewise-linear unlock schedules, claimable and
//! terminable grants, and a draft workflow for funding batches of grants.

pub mod claims;
pub mod draft;
pub mod drafting;
pub mod error;
pub mod grants;
pub mod ledger;
pub mod lockup;
pub mod math;
pub mod schedule;
pub mod termination;
pub mod util;
pub mod views;

use vstd::prelude::*;

verus! {

/// An amount of the token, in its smallest unit.
pub type Balance = u128;

/// Seconds since the unix epoch.
pub type TimestampSec = u32;

/// An account name.
pub type AccountId = String;

/// A 32-byte digest.
pub type CryptoHash = [u8; 32];

} // verus!
