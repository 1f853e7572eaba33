//! Retry policy: exponential backoff and attempt limit.

use vstd::prelude::*;

use crate::time::Duration;

verus! {

use vstd::arithmetic::power2::{lemma_pow2_pos, lemma_pow2_strictly_increases, lemma_pow2_unfold, pow2};

/// Controls how failed deliveries are retried.
#[derive(Debug, Clone, Copy)]
pub struct RetryPolicy {
    /// Attempts before a mail is buried as dead.
    pub max_attempts: u32,
    /// Delay before the first retry.
    pub base_delay: Duration,
    /// Upper bound of the delay.
    pub max_delay: Duration,
}

/// The number of doublings after `attempts` attempts.
pub open spec fn doublings(attempts: u32) -> nat {
    if attempts >= 1 {
        (attempts - 1) as nat
    } else {
        0
    }
}

impl RetryPolicy {
    /// The delay in nanoseconds before the attempt that follows `attempts` attempts.
    pub open spec fn delay(self, attempts: u32) -> int {
        let wished = self.base_delay.length() * pow2(doublings(attempts));
        if wished <= self.max_delay.length() {
            wished
        } else {
            self.max_delay.length()
        }
    }

    /// Whether `attempts` attempts leave no retry.
    pub open spec fn exhausted(self, attempts: u32) -> bool {
        attempts >= self.max_attempts
    }

    /// Delay before the next attempt, given how many attempts have been made: the base delay
    /// doubled after every attempt but the first, and at most the maximum.
    pub fn backoff(&self, attempts: u32) -> (delay: Duration)
        ensures
            delay.length() == self.delay(attempts),
    {
        let base: u128 = self.base_delay.as_nanos();
        let max: u128 = self.max_delay.as_nanos();
        let shift: u32 = attempts.saturating_sub(1);
        if base == 0 {
            assert(0 * pow2(doublings(attempts)) == 0);
            return self.base_delay;
        }
        let mut delay: u128 = base;
        let mut k: u32 = 0;
        proof {
            vstd::arithmetic::power2::lemma2_to64();
        }
        while k < shift && delay <= max
            invariant
                k <= shift,
                0 < base,
                max <= u64::MAX * 1_000_000_000 + 999_999_999,
                base <= u64::MAX * 1_000_000_000 + 999_999_999,
                delay as int == base * pow2(k as nat),
                delay <= 2 * max || delay == base,
            decreases shift - k,
        {
            proof {
                lemma_pow2_unfold((k + 1) as nat);
                assert(base * (2 * pow2(k as nat)) == 2 * (base * pow2(k as nat)))
                    by (nonlinear_arith);
            }
            delay = delay * 2;
            k += 1;
        }
        if delay <= max {
            return Duration::from_nanos(delay);
        }
        proof {
            if k < shift {
                lemma_pow2_strictly_increases(k as nat, shift as nat);
                assert(base * pow2(shift as nat) >= base * pow2(k as nat)) by (nonlinear_arith)
                    requires
                        base > 0,
                        pow2(shift as nat) >= pow2(k as nat),
                ;
            }
        }
        self.max_delay
    }

    /// Whether a mail that has made `attempts` attempts has no retries left.
    pub fn is_exhausted(&self, attempts: u32) -> (yes: bool)
        ensures
            yes == self.exhausted(attempts),
    {
        attempts >= self.max_attempts
    }
}

impl Default for RetryPolicy {
    fn default() -> (p: Self)
        ensures
            p.max_attempts == 5,
            p.base_delay.length() == 30_000_000_000,
            p.max_delay.length() == 3600_000_000_000,
    {
        RetryPolicy {
            max_attempts: 5,
            base_delay: Duration::from_secs(30),
            max_delay: Duration::from_secs(3600),
        }
    }
}

/// The delay never exceeds the maximum, is not shorter than the base delay unless the maximum
/// is, and grows with the attempts.
pub proof fn law_backoff_within_bounds(policy: RetryPolicy, attempts: u32)
    requires
        policy.base_delay.length() >= 0,
        policy.max_delay.length() >= 0,
    ensures
        policy.delay(attempts) <= policy.max_delay.length(),
        policy.delay(attempts) >= policy.base_delay.length() || policy.delay(attempts)
            == policy.max_delay.length(),
        attempts < u32::MAX ==> policy.delay(attempts) <= policy.delay((attempts + 1) as u32),
{
    let base = policy.base_delay.length();
    let n = doublings(attempts);
    lemma_pow2_pos(n);
    assert(base * pow2(n) >= base) by (nonlinear_arith)
        requires
            base >= 0,
            pow2(n) >= 1,
    ;
    if attempts < u32::MAX {
        let m = doublings((attempts + 1) as u32);
        if n < m {
            lemma_pow2_strictly_increases(n, m);
            assert(base * pow2(m) >= base * pow2(n)) by (nonlinear_arith)
                requires
                    base >= 0,
                    pow2(m) >= pow2(n),
            ;
        }
    }
}

/// The delay doubles with every attempt until it reaches the maximum; the first retry waits for
/// the base delay.
pub proof fn law_backoff_doubles(policy: RetryPolicy, attempts: u32)
    requires
        1 <= attempts < u32::MAX,
        policy.base_delay.length() >= 0,
        policy.max_delay.length() >= 0,
    ensures
        policy.base_delay.length() <= policy.max_delay.length() ==> policy.delay(1)
            == policy.base_delay.length(),
        2 * policy.delay(attempts) <= policy.max_delay.length() ==> policy.delay(
            (attempts + 1) as u32,
        ) == 2 * policy.delay(attempts),
        2 * policy.delay(attempts) > policy.max_delay.length() ==> policy.delay(
            (attempts + 1) as u32,
        ) == policy.max_delay.length(),
{
    let base = policy.base_delay.length();
    let n = doublings(attempts);
    vstd::arithmetic::power2::lemma2_to64();
    lemma_pow2_unfold((n + 1) as nat);
    assert(base * (2 * pow2(n)) == 2 * (base * pow2(n))) by (nonlinear_arith);
    assert(base * pow2(0) == base) by (nonlinear_arith)
        requires
            pow2(0) == 1,
    ;
    lemma_pow2_pos(n);
    assert(base * pow2(n) >= 0) by (nonlinear_arith)
        requires
            base >= 0,
            pow2(n) >= 1,
    ;
}

/// Before the first attempt has failed the delay is that of the first retry. A base delay beyond
/// the maximum gives the maximum.
pub proof fn law_backoff_starts_at_the_base(policy: RetryPolicy)
    requires
        policy.base_delay.length() >= 0,
        policy.max_delay.length() >= 0,
    ensures
        policy.delay(0) == policy.delay(1),
        policy.base_delay.length() <= policy.max_delay.length() ==> policy.delay(0)
            == policy.base_delay.length(),
        policy.base_delay.length() > policy.max_delay.length() ==> policy.delay(0)
            == policy.max_delay.length(),
{
    law_backoff_doubles(policy, 1);
    law_backoff_within_bounds(policy, 0);
    law_backoff_within_bounds(policy, 1);
}

/// A mail has no retries left exactly when it has made as many attempts as the policy allows.
pub proof fn law_attempts_are_bounded(policy: RetryPolicy, attempts: u32)
    ensures
        attempts < policy.max_attempts ==> !policy.exhausted(attempts),
        policy.max_attempts <= attempts ==> policy.exhausted(attempts),
{
}

/// The delay that is given never exceeds the maximum, is the base delay for the first retry, and
/// doubles from one attempt to the next until it reaches the maximum.
pub proof fn law_delays_double_up_to_the_maximum(
    policy: &RetryPolicy,
    attempts: u32,
    delay: Duration,
    next: Duration,
    first: Duration,
)
    requires
        call_ensures(RetryPolicy::backoff, (policy, attempts), delay),
        call_ensures(RetryPolicy::backoff, (policy, (attempts + 1) as u32), next),
        call_ensures(RetryPolicy::backoff, (policy, 1u32), first),
        1 <= attempts < u32::MAX,
        policy.base_delay.length() >= 0,
        policy.max_delay.length() >= 0,
    ensures
        delay.length() <= policy.max_delay.length(),
        first.length() == (if policy.base_delay.length() <= policy.max_delay.length() {
            policy.base_delay.length()
        } else {
            policy.max_delay.length()
        }),
        next.length() == (if 2 * delay.length() <= policy.max_delay.length() {
            2 * delay.length()
        } else {
            policy.max_delay.length()
        }),
{
    law_backoff_within_bounds(*policy, attempts);
    law_backoff_doubles(*policy, attempts);
    law_backoff_starts_at_the_base(*policy);
}

} // verus!
