//! Time units and the compute budget of a call.

use crate::TimestampSec;
use vstd::prelude::*;

verus! {

/// Compute set aside for scheduling a call to another contract.
pub const GAS_EXT_CALL_COST: u64 = 10_000_000_000_000;

/// The least compute worth handing to a conversion of drafts.
pub const GAS_MIN_FOR_CONVERT: u64 = 15_000_000_000_000;

/// Whole seconds in a timestamp given in nanoseconds.
pub fn nano_to_sec(timestamp: u64) -> (r: TimestampSec)
    requires
        timestamp / 1_000_000_000 <= u32::MAX,
    ensures
        r == timestamp / 1_000_000_000,
{
    (timestamp / 1_000_000_000) as TimestampSec
}

/// After a draft group is funded with `try_convert`, how much compute to hand
/// to converting its drafts: what is left of `prepaid_gas` once `used_gas`
/// and the cost of the call are set aside, provided that it exceeds the
/// least worth trying. Otherwise the conversion is not attempted at all.
pub fn auto_convert_gas(prepaid_gas: u64, used_gas: u64, try_convert: Option<bool>) -> (r: Option<u64>)
    ensures
        r is Some <==> try_convert == Some(true) && used_gas + GAS_EXT_CALL_COST <= prepaid_gas
            && prepaid_gas - used_gas - GAS_EXT_CALL_COST > GAS_MIN_FOR_CONVERT,
        r is Some ==> r->Some_0 == prepaid_gas - used_gas - GAS_EXT_CALL_COST,
{
    match try_convert {
        Some(true) => {},
        _ => {
            return None;
        },
    }
    let reserved = match used_gas.checked_add(GAS_EXT_CALL_COST) {
        Some(g) => g,
        None => {
            return None;
        },
    };
    match prepaid_gas.checked_sub(reserved) {
        Some(remaining) => if remaining > GAS_MIN_FOR_CONVERT {
            Some(remaining)
        } else {
            None
        },
        None => None,
    }
}

} // verus!
