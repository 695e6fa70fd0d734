//! The wall clock.
use std::time::{Duration, SystemTime};
use vstd::prelude::*;

verus! {

/// `std::time::SystemTime`, a point in time that is only carried about.
#[verifier::external_type_specification]
#[verifier::external_body]
pub struct ExSystemTime(std::time::SystemTime);

/// `SystemTime::now`: the machine's idea of the time; nothing is known of it.
pub assume_specification[ SystemTime::now ]() -> (res: SystemTime)
;

/// The time that has passed since 1970 at a point in time, if it is not before.
pub uninterp spec fn passed(t: SystemTime) -> Option<Duration>;

/// The whole milliseconds of a time span.
pub uninterp spec fn millis(d: Duration) -> u128;

/// `SystemTime::duration_since` with `UNIX_EPOCH`: the time that has passed
/// since 1970, or nothing where `t` lies before it.
#[verifier::external_body]
fn since_epoch(t: &SystemTime) -> (res: Option<Duration>)
    ensures
        res == passed(*t),
{
    t.duration_since(std::time::UNIX_EPOCH).ok()
}

/// `Duration::as_millis`: the whole milliseconds of a time span.
pub assume_specification[ Duration::as_millis ](d: &Duration) -> (res: u128)
    ensures
        res == millis(*d),
;

/// The whole milliseconds that have passed since 1970 at a point in time, if it
/// is not before.
pub open spec fn millis_passed(t: SystemTime) -> Option<u128> {
    match passed(t) {
        Some(d) => Some(millis(d)),
        None => None,
    }
}

/// The time stamp of a count of milliseconds: its low 64 bits, or 0.
pub open spec fn stamped(since: Option<u128>) -> u128 {
    match since {
        Some(ms) => ms % 0x1_0000_0000_0000_0000,
        None => 0,
    }
}

/// The time stamp of a clock that is `since` milliseconds past 1970, or that
/// stands before it: the low 64 bits of the count, or 0.
pub fn stamp(since: Option<u128>) -> (res: u64)
    ensures
        res == stamped(since),
{
    match since {
        Some(ms) => {
            assert(ms as u64 == ms % 0x1_0000_0000_0000_0000u128) by (bit_vector);
            ms as u64
        },
        None => 0,
    }
}

/// Milliseconds since 1970, or 0 on a clock that stands before it: the stamp of
/// some point in time. Which one is not claimed; the machine's clock decides.
pub fn now_ms() -> (res: u64)
    ensures
        exists|t: SystemTime| res == stamped(#[trigger] millis_passed(t)),
{
    let t = SystemTime::now();
    assert(millis_passed(t) == millis_passed(t));
    match since_epoch(&t) {
        Some(d) => stamp(Some(d.as_millis())),
        None => stamp(None),
    }
}

/// A stamp is the count of milliseconds itself where that fits, and 0 where
/// there is none.
pub proof fn law_stamped(ms: u128)
    ensures
        ms <= u64::MAX ==> stamped(Some(ms)) == ms,
        stamped(None) == 0,
{
}

} // verus!
