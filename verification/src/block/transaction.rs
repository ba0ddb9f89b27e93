//! A transfer of value from one address to another.
use vstd::prelude::*;

use crate::block::Address;

verus! {

/// A transfer of `value` from `from` to `to`, stamped with the Unix time
/// (in seconds) at which it was made.
#[derive(Debug, Clone, Copy, PartialEq, Eq)]
pub struct Transaction {
    pub to: Address,
    pub from: Address,
    pub value: u128,
    pub nonce: u64,
    pub timestamp: i64,
}

/// Reads the system clock: `SystemTime::now().duration_since(UNIX_EPOCH)`.
/// Returns whether the clock is at or after the Unix epoch, and the distance
/// from the epoch in whole seconds and leftover nanoseconds. Nothing is
/// claimed of the reading: it depends on the clock.
#[verifier::external_body]
fn read_system_clock() -> (bool, u64, u32) {
    match std::time::SystemTime::now().duration_since(std::time::UNIX_EPOCH) {
        Ok(d) => (true, d.as_secs(), d.subsec_nanos()),
        Err(e) => (false, e.duration().as_secs(), e.duration().subsec_nanos()),
    }
}

/// The Unix time in whole seconds, rounded down, of a clock reading as
/// `read_system_clock` gives it; saturated where it does not fit an `i64`.
pub open spec fn seconds_of_reading(after_epoch: bool, secs: u64, nanos: u32) -> int {
    if after_epoch {
        if secs > i64::MAX {
            i64::MAX as int
        } else {
            secs as int
        }
    } else {
        let back = if nanos == 0 {
            secs as int
        } else {
            secs + 1
        };
        if back > i64::MAX {
            i64::MIN as int
        } else {
            -back
        }
    }
}

/// The Unix time in whole seconds, rounded down, of a clock reading: whether
/// the clock is at or after the epoch, and its distance from the epoch in
/// seconds and leftover nanoseconds. Values beyond `i64` saturate.
pub fn seconds_from_reading(after_epoch: bool, secs: u64, nanos: u32) -> (r: i64)
    ensures
        r == seconds_of_reading(after_epoch, secs, nanos),
{
    if after_epoch {
        if secs > i64::MAX as u64 {
            i64::MAX
        } else {
            secs as i64
        }
    } else {
        let back: u64 = if nanos == 0 {
            secs
        } else if secs == u64::MAX {
            u64::MAX
        } else {
            secs + 1
        };
        if back > i64::MAX as u64 {
            i64::MIN
        } else {
            -(back as i64)
        }
    }
}

/// Law: a reading at or after the epoch gives its whole seconds (the largest
/// `i64` beyond it); a reading before the epoch gives minus its seconds,
/// rounded away from zero where there are leftover nanoseconds, so the result
/// is the whole second at or before the reading (the smallest `i64` beyond
/// it). Later readings never give smaller results.
pub proof fn lemma_seconds_of_reading(after_epoch: bool, secs: u64, nanos: u32)
    ensures
        after_epoch && secs <= i64::MAX ==> seconds_of_reading(after_epoch, secs, nanos) == secs,
        after_epoch && secs > i64::MAX ==> seconds_of_reading(after_epoch, secs, nanos)
            == i64::MAX,
        !after_epoch && nanos == 0 && secs <= i64::MAX ==> seconds_of_reading(
            after_epoch,
            secs,
            nanos,
        ) == -secs,
        !after_epoch && nanos > 0 && secs < i64::MAX ==> seconds_of_reading(
            after_epoch,
            secs,
            nanos,
        ) == -secs - 1,
        !after_epoch ==> seconds_of_reading(after_epoch, secs, nanos) <= 0,
        after_epoch ==> seconds_of_reading(after_epoch, secs, nanos) >= 0,
        forall|later: u64|
            secs <= later ==> seconds_of_reading(true, secs, nanos) <= #[trigger] seconds_of_reading(
                true,
                later,
                nanos,
            ),
{
}

/// The current Unix time in whole seconds, rounded down: the seconds of the
/// clock reading taken during the call. A clock before the epoch gives
/// negative seconds; nothing here panics.
pub(crate) fn unix_now() -> (r: i64)
    ensures
        exists|after_epoch: bool, secs: u64, nanos: u32|
            r == seconds_of_reading(after_epoch, secs, nanos),
{
    let (after_epoch, secs, nanos) = read_system_clock();
    seconds_from_reading(after_epoch, secs, nanos)
}

impl Transaction {
    /// A transaction with nonce 0, stamped with `timestamp`.
    pub fn with_timestamp(to: Address, from: Address, value: u128, timestamp: i64) -> (r: Transaction)
        ensures
            r == (Transaction { to, from, value, nonce: 0, timestamp }),
    {
        Transaction { to, from, value, nonce: 0, timestamp }
    }

    /// A transaction with nonce 0, stamped with the current time: a
    /// transaction `with_timestamp` of a clock reading taken during the call.
    pub fn new(to: Address, from: Address, value: u128) -> (r: Transaction)
        ensures
            r.to == to,
            r.from == from,
            r.value == value,
            r.nonce == 0,
    {
        let now = unix_now();
        Self::with_timestamp(to, from, value, now)
    }
}

} // verus!
