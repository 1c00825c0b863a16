//! The monotonic clock that stamps events, in milliseconds.

use std::time::Instant;
use vstd::prelude::*;

verus! {

#[verifier::external_type_specification]
#[verifier::external_body]
pub struct ExInstant(Instant);

/// `Instant::now` reads the monotonic clock. Nothing is claimed of the
/// instant that comes back.
pub assume_specification[ Instant::now ]() -> (now: Instant)
;

/// `Instant::saturating_duration_since` gives the time from `earlier` to
/// `later`, and a zero duration where `earlier` is the later one; it does not
/// panic. Nothing is claimed of the duration that comes back.
pub assume_specification[ Instant::saturating_duration_since ](
    later: &Instant,
    earlier: Instant,
) -> (elapsed: core::time::Duration)
;

/// `Duration::as_millis` gives the whole milliseconds of a duration. Nothing
/// is claimed of the number that comes back.
pub assume_specification[ core::time::Duration::as_millis ](duration: &core::time::Duration) -> (millis: u128)
;

/// A count of milliseconds as the clock reports it: the count itself where
/// it fits into 64 bits, and `u64::MAX` where it does not.
pub fn saturate_millis(millis: u128) -> (count: u64)
    ensures
        count == if millis > u64::MAX {
            u64::MAX
        } else {
            millis as u64
        },
{
    if millis > 0xFFFF_FFFF_FFFF_FFFF {
        0xFFFF_FFFF_FFFF_FFFF
    } else {
        millis as u64
    }
}

/// A clock that counts milliseconds from the moment it was started.
#[derive(Clone, Copy, Debug)]
pub struct Clock {
    origin: Instant,
}

impl Clock {
    /// A clock that starts now.
    pub fn start() -> Clock {
        Clock { origin: Instant::now() }
    }

    /// The milliseconds since the clock was started; `u64::MAX` where they
    /// do not fit.
    pub fn millis(&self) -> u64 {
        let elapsed: core::time::Duration = Instant::now().saturating_duration_since(self.origin);
        saturate_millis(elapsed.as_millis())
    }
}

} // verus!
