//! The trusted boundary to governor, the external keyed quota algorithm.
//!
//! The library treats the quota checker as a collaborator: a clock-driven,
//! keyed "consume one unit or report a wait time" oracle. Nothing about the
//! timing of its answers can be promised here — they depend on the clock and
//! on the limiter's accumulated state — so the wrappers state only the shape
//! of the exchange, and every verified contract downstream holds for every
//! answer the checker can give.

use core::num::NonZeroU32;
use core::time::Duration;
use governor::clock::{Clock, DefaultClock};
use governor::state::keyed::DefaultKeyedStateStore;
use governor::{Quota, RateLimiter};
use vstd::prelude::*;

verus! {

/// A keyed quota checker for `String` identity keys: governor's keyed
/// `RateLimiter` paired with the clock used to report wait times. The
/// limiter's generics (state store with an associated key type, clock,
/// middleware with a default) cannot be declared to the verifier, so the
/// pair is held behind this opaque struct and reached only through the
/// trusted wrappers below.
#[verifier::external_body]
pub struct KeyedLimiter {
    limiter: RateLimiter<String, DefaultKeyedStateStore<String>, DefaultClock>,
    clock: DefaultClock,
}

impl KeyedLimiter {
    /// Relies on `governor::Quota::with_period`, `Quota::allow_burst` and
    /// `governor::RateLimiter::keyed`: builds a keyed limiter that admits
    /// bursts of up to `max_burst` units, replenished one unit per
    /// `period_ms` milliseconds, independently for every distinct key.
    ///
    /// governor derives its internal parameters by converting the period to
    /// 64-bit nanoseconds and multiplying by the burst size, and both the
    /// conversion and the multiplication are unchecked — a period over 64
    /// bits of nanoseconds makes the conversion panic, and a large
    /// period-times-burst product overflows. The precondition keeps the
    /// whole product within 64-bit nanoseconds, where neither can happen;
    /// it also keeps the limiter's per-check arithmetic, which adds the
    /// same parameters to the clock reading, from overflowing for any
    /// realistic process lifetime.
    #[verifier::external_body]
    pub fn per_millis(period_ms: u64, max_burst: u32) -> (r: KeyedLimiter)
        requires
            0 < period_ms,
            0 < max_burst,
            (period_ms as int) * 1_000_000 * (max_burst as int) <= u64::MAX as int,
    {
        let period = Duration::from_millis(period_ms);
        let quota = Quota::with_period(period)
            .expect("the period is positive")
            .allow_burst(NonZeroU32::new(max_burst).expect("the burst is positive"));
        KeyedLimiter { limiter: RateLimiter::keyed(quota), clock: DefaultClock::default() }
    }

    /// Relies on `governor::RateLimiter::check_key` and
    /// `governor::NotUntil::wait_time_from`: consumes one quota unit for
    /// `key` if the quota admits it (returning `None`), else consumes
    /// nothing and reports the minimum wait before a retry could succeed,
    /// in whole milliseconds, measured from the clock's current reading
    /// (returning `Some`). The answer depends on the limiter's state and on
    /// the clock, so no more is promised of it; callers are verified for
    /// every possible answer.
    #[verifier::external_body]
    pub fn check_ms(&self, key: &String) -> (r: Option<u128>) {
        match self.limiter.check_key(key) {
            Ok(()) => None,
            Err(not_until) => Some(not_until.wait_time_from(self.clock.now()).as_millis()),
        }
    }
}

} // verus!
