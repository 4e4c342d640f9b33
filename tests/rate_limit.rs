use roblox_slang::rate_limit::{RateLimiter, RetryAction};
use roblox_slang::types::CloudSyncError;

#[test]
fn test_rate_limiter_default() {
    let limiter = RateLimiter::default();
    assert_eq!(limiter.max_retries, 3);
    assert_eq!(limiter.base_delay, 1);
}

#[test]
fn test_rate_limiter_respects_retry_after() {
    let limiter = RateLimiter::new(3, 1);
    let delay = limiter.calculate_delay(
        0,
        &CloudSyncError::RateLimitError {
            retry_after: 5,
            attempt: 1,
        },
    );
    assert_eq!(delay, 5);
}

#[test]
fn test_rate_limiter_exponential_backoff() {
    let limiter = RateLimiter::new(3, 1);
    let err = CloudSyncError::ServerError {
        status: 500,
        message: "Server error".to_string(),
    };
    assert_eq!(limiter.calculate_delay(0, &err), 1);
    assert_eq!(limiter.calculate_delay(1, &err), 2);
    assert_eq!(limiter.calculate_delay(2, &err), 4);
}

#[test]
fn backoff_scales_with_base_delay_and_saturates() {
    let limiter = RateLimiter::new(5, 3);
    let err = CloudSyncError::ServerError {
        status: 503,
        message: String::new(),
    };
    assert_eq!(limiter.calculate_delay(4, &err), 48);
    assert_eq!(limiter.calculate_delay(200, &err), u64::MAX);
}

#[test]
fn retryable_errors_are_rate_limit_and_server() {
    let limiter = RateLimiter::new(3, 1);
    assert!(limiter.is_retryable_error(&CloudSyncError::RateLimitError {
        retry_after: 1,
        attempt: 1
    }));
    assert!(limiter.is_retryable_error(&CloudSyncError::ServerError {
        status: 502,
        message: String::new()
    }));
    assert!(!limiter.is_retryable_error(&CloudSyncError::AuthenticationError(String::new())));
    assert!(!limiter.is_retryable_error(&CloudSyncError::ApiError(String::new())));
    assert!(!limiter.is_retryable_error(&CloudSyncError::ConfigError(String::new())));
}

/// Runs the retry loop over scripted outcomes (`None` is a success) and counts retries.
fn run(limiter: &RateLimiter, outcomes: Vec<Option<CloudSyncError>>) -> (bool, u32, u64) {
    let mut attempt: u32 = 0;
    let mut slept: u64 = 0;
    for outcome in outcomes {
        match outcome {
            None => return (true, attempt, slept),
            Some(err) => match limiter.next_action(attempt, &err) {
                RetryAction::GiveUp => return (false, attempt, slept),
                RetryAction::Retry { delay_secs } => {
                    slept += delay_secs;
                    attempt += 1;
                }
            },
        }
    }
    (false, attempt, slept)
}

#[test]
fn two_rate_limits_then_success_retries_twice() {
    let limiter = RateLimiter::new(3, 1);
    let rl = |s| Some(CloudSyncError::RateLimitError { retry_after: s, attempt: 1 });
    let (ok, retries, slept) = run(&limiter, vec![rl(2), rl(7), None]);
    assert!(ok);
    assert_eq!(retries, 2);
    assert_eq!(slept, 9);
}

#[test]
fn authentication_error_is_not_retried() {
    let limiter = RateLimiter::new(3, 1);
    let (ok, retries, _) = run(
        &limiter,
        vec![Some(CloudSyncError::AuthenticationError("Invalid API key".to_string())), None],
    );
    assert!(!ok);
    assert_eq!(retries, 0);
}

#[test]
fn retries_stop_at_the_budget() {
    let limiter = RateLimiter::new(2, 1);
    let se = || Some(CloudSyncError::ServerError { status: 500, message: String::new() });
    let (ok, retries, slept) = run(&limiter, vec![se(), se(), se(), None]);
    assert!(!ok);
    assert_eq!(retries, 2);
    assert_eq!(slept, 1 + 2);
}

#[test]
fn transport_failures_retry_when_transient() {
    let limiter = RateLimiter::new(2, 3);
    assert_eq!(
        limiter.next_action_for_message(1, "connection reset by peer"),
        RetryAction::Retry { delay_secs: 6 }
    );
    assert_eq!(limiter.next_action_for_message(2, "request timeout"), RetryAction::GiveUp);
    assert_eq!(limiter.next_action_for_message(0, "invalid JSON"), RetryAction::GiveUp);
    assert_eq!(limiter.backoff_delay(3), 24);
}
