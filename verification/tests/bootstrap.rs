use std::time::Duration;

use masp_read_layer::backoff::backoff_delay;
use masp_read_layer::bootstrap::{Attempt, Bootstrap, Next, RetryPolicy};
use masp_read_layer::error::ReadError;
use masp_read_layer::settings::PoolSettings;
use tryhard::backoff_strategies::{BackoffStrategy, ExponentialBackoff};

fn default_policy(max_retries: u32) -> RetryPolicy {
    RetryPolicy { max_retries, base_delay_ms: 100, max_delay_ms: 5000 }
}

/// Runs a bootstrap against a store that fails `failures` times and is
/// reached then; gives the delays slept and how the bootstrap ended.
fn bootstrap_against(policy: RetryPolicy, failures: u32) -> (Vec<u64>, Next, Bootstrap) {
    let mut bootstrap = Bootstrap::new(policy);
    let mut delays = Vec::new();
    let mut failed = 0;
    loop {
        let attempt = if failed < failures { Attempt::Failed } else { Attempt::Connected };
        match bootstrap.on_attempt(attempt) {
            Next::RetryAfter { delay_ms } => {
                failed += 1;
                delays.push(delay_ms);
            }
            end => return (delays, end, bootstrap),
        }
    }
}

#[test]
fn delays_double_from_the_base_up_to_the_cap() {
    assert_eq!(backoff_delay(0, 100, 5000), 0);
    assert_eq!(backoff_delay(1, 100, 5000), 100);
    assert_eq!(backoff_delay(2, 100, 5000), 200);
    assert_eq!(backoff_delay(3, 100, 5000), 400);
    assert_eq!(backoff_delay(4, 100, 5000), 800);
    assert_eq!(backoff_delay(5, 100, 5000), 1600);
    assert_eq!(backoff_delay(6, 100, 5000), 3200);
    assert_eq!(backoff_delay(7, 100, 5000), 5000);
    assert_eq!(backoff_delay(8, 100, 5000), 5000);
    assert_eq!(backoff_delay(u32::MAX, 100, 5000), 5000);
}

#[test]
fn delay_edges() {
    assert_eq!(backoff_delay(1, 9000, 5000), 5000);
    assert_eq!(backoff_delay(5, 0, 5000), 0);
    assert_eq!(backoff_delay(u32::MAX, 0, 5000), 0);
    assert_eq!(backoff_delay(3, 100, 0), 0);
    assert_eq!(backoff_delay(64, 1, u64::MAX), 1 << 63);
    assert_eq!(backoff_delay(65, 1, u64::MAX), u64::MAX);
    assert_eq!(backoff_delay(2, u64::MAX, u64::MAX), u64::MAX);
    assert_eq!(backoff_delay(3, 1250, 5000), 5000);
    assert_eq!(backoff_delay(4, 1250, 5000), 5000);
}

#[test]
fn delays_agree_with_the_doubling_strategy() {
    for &(base, cap) in &[(100u64, 5000u64), (1, 1000), (7, 7), (250, 100), (3, u64::MAX / 1000)] {
        let mut strategy = ExponentialBackoff::new(Duration::from_millis(base));
        for attempt in 1..=80u32 {
            let next: Duration = BackoffStrategy::<()>::delay(&mut strategy, attempt, &());
            let capped = next.min(Duration::from_millis(cap));
            assert_eq!(u128::from(backoff_delay(attempt, base, cap)), capped.as_millis());
        }
    }
}

#[test]
fn store_reached_after_failures_is_reached_on_schedule() {
    let (delays, end, bootstrap) = bootstrap_against(default_policy(5), 3);
    assert_eq!(delays, vec![100, 200, 400]);
    assert_eq!(end, Next::Ready);
    assert_eq!(bootstrap.retries_made(), 3);
    assert_eq!(bootstrap.waited_ms(), 700);
}

#[test]
fn store_reached_at_the_last_retry_is_reached() {
    let (delays, end, bootstrap) = bootstrap_against(default_policy(5), 5);
    assert_eq!(delays, vec![100, 200, 400, 800, 1600]);
    assert_eq!(end, Next::Ready);
    assert_eq!(bootstrap.waited_ms(), 3100);
}

#[test]
fn store_reached_at_once_waits_for_nothing() {
    let (delays, end, bootstrap) = bootstrap_against(default_policy(5), 0);
    assert_eq!(delays, Vec::<u64>::new());
    assert_eq!(end, Next::Ready);
    assert_eq!(bootstrap.retries_made(), 0);
    assert_eq!(bootstrap.waited_ms(), 0);
}

#[test]
fn store_never_reached_is_given_up_after_the_retries() {
    let (delays, end, bootstrap) = bootstrap_against(default_policy(5), u32::MAX);
    assert_eq!(delays, vec![100, 200, 400, 800, 1600]);
    assert_eq!(end, Next::Fatal { error: ReadError::PoolInit { retries: 5 } });
    assert_eq!(bootstrap.retries_made(), 5);
    assert_eq!(bootstrap.waited_ms(), 3100);
}

#[test]
fn long_schedules_stay_at_the_cap() {
    let (delays, end, bootstrap) = bootstrap_against(default_policy(9), u32::MAX);
    assert_eq!(delays, vec![100, 200, 400, 800, 1600, 3200, 5000, 5000, 5000]);
    assert_eq!(end, Next::Fatal { error: ReadError::PoolInit { retries: 9 } });
    assert_eq!(bootstrap.waited_ms(), 21_300);
}

#[test]
fn no_retries_allowed_means_one_attempt() {
    let (delays, end, _) = bootstrap_against(default_policy(0), 1);
    assert_eq!(delays, Vec::<u64>::new());
    assert_eq!(end, Next::Fatal { error: ReadError::PoolInit { retries: 0 } });
}

#[test]
fn settings_give_the_policy_of_the_bootstrap() {
    let settings = PoolSettings::from_values(None, Some("3"));
    assert_eq!(settings.retry_policy(), default_policy(3));
}
