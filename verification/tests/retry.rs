use oxid_relay::retry::RetryPolicy;
use oxid_relay::time::Duration;

#[test]
fn backoff_grows_exponentially() {
    let policy = RetryPolicy {
        max_attempts: 5,
        base_delay: Duration::from_secs(30),
        max_delay: Duration::from_secs(3600),
    };
    assert_eq!(policy.backoff(1), Duration::from_secs(30));
    assert_eq!(policy.backoff(2), Duration::from_secs(60));
    assert_eq!(policy.backoff(3), Duration::from_secs(120));
    assert_eq!(policy.backoff(4), Duration::from_secs(240));
}

#[test]
fn backoff_is_capped() {
    let policy = RetryPolicy {
        max_attempts: 20,
        base_delay: Duration::from_secs(30),
        max_delay: Duration::from_secs(300),
    };
    assert_eq!(policy.backoff(10), Duration::from_secs(300));
}

#[test]
fn exhaustion_at_max_attempts() {
    let policy = RetryPolicy::default();
    assert!(!policy.is_exhausted(4));
    assert!(policy.is_exhausted(5));
    assert!(policy.is_exhausted(6));
}

#[test]
fn backoff_keeps_fractions_and_extremes() {
    let policy = RetryPolicy {
        max_attempts: 3,
        base_delay: Duration::from_parts(1, 500_000_000),
        max_delay: Duration::from_parts(u64::MAX, 999_999_999),
    };
    assert_eq!(policy.backoff(0), Duration::from_parts(1, 500_000_000));
    assert_eq!(policy.backoff(2), Duration::from_secs(3));
    assert_eq!(policy.backoff(41), Duration::from_secs(3 << 39));
    assert_eq!(policy.backoff(u32::MAX), policy.max_delay);
    let none = RetryPolicy { base_delay: Duration::from_secs(0), ..policy };
    assert_eq!(none.backoff(u32::MAX), Duration::from_secs(0));
    let tight = RetryPolicy { max_delay: Duration::from_secs(1), ..policy };
    assert_eq!(tight.backoff(1), Duration::from_secs(1));
}
