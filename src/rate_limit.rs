//! Retry decisions with exponential backoff and server-specified waits.
//!
//! The library decides; the caller performs the operation and the sleep. After a failure
//! the caller asks [`RateLimiter::next_action`] what to do next.
use crate::types::CloudSyncError;
use crate::validator::{contains_text, occurs_in};
use vstd::prelude::*;

verus! {

pub const U64_MAX: u64 = 0xffff_ffff_ffff_ffff;

pub open spec fn pow2(n: nat) -> nat
    decreases n,
{
    if n == 0 {
        1
    } else {
        2 * pow2((n - 1) as nat)
    }
}

/// The backoff in seconds before retry number `attempt` (zero-based), saturated at the
/// largest `u64`.
pub open spec fn backoff(base_delay: u64, attempt: nat) -> nat {
    let d = base_delay as nat * pow2(attempt);
    if d > U64_MAX as nat {
        U64_MAX as nat
    } else {
        d
    }
}

/// Rate-limit and server errors are transient; the others are terminal.
pub open spec fn is_transient(err: CloudSyncError) -> bool {
    err is RateLimitError || err is ServerError
}

/// What the caller does after a failed attempt.
#[derive(Debug, Clone, Copy, PartialEq, Eq)]
pub enum RetryAction {
    /// Sleep this many seconds, then try again.
    Retry { delay_secs: u64 },
    /// Return the error as it is.
    GiveUp,
}

/// Retry policy: a budget of retries beyond the first try, and a base delay.
#[derive(Debug, Clone, Copy)]
pub struct RateLimiter {
    /// Maximum number of retries after the first attempt.
    pub max_retries: u32,
    /// Base delay of the exponential backoff, in seconds.
    pub base_delay: u64,
}

impl RateLimiter {
    /// The delay before the retry that follows failure `err` of attempt `attempt`.
    pub open spec fn delay_spec(&self, attempt: nat, err: CloudSyncError) -> nat {
        match err {
            CloudSyncError::RateLimitError { retry_after, .. } => retry_after as nat,
            _ => backoff(self.base_delay, attempt),
        }
    }

    /// What follows failure `err` of attempt `attempt` (zero-based).
    pub open spec fn action_spec(&self, attempt: nat, err: CloudSyncError) -> RetryAction {
        if !is_transient(err) || attempt >= self.max_retries {
            RetryAction::GiveUp
        } else {
            RetryAction::Retry { delay_secs: self.delay_spec(attempt, err) as u64 }
        }
    }

    pub fn new(max_retries: u32, base_delay: u64) -> (r: RateLimiter)
        ensures
            r.max_retries == max_retries,
            r.base_delay == base_delay,
    {
        RateLimiter { max_retries, base_delay }
    }

    /// Whether a failure is worth another attempt.
    pub fn is_retryable_error(&self, err: &CloudSyncError) -> (r: bool)
        ensures
            r == is_transient(*err),
    {
        match err {
            CloudSyncError::RateLimitError { .. } => true,
            CloudSyncError::ServerError { .. } => true,
            _ => false,
        }
    }

    /// The exponential backoff before retry `attempt` (zero-based): `base_delay * 2^attempt`
    /// seconds, saturated at the largest `u64`.
    pub fn backoff_delay(&self, attempt: u32) -> (d: u64)
        ensures
            d == backoff(self.base_delay, attempt as nat),
    {
        let mut d: u64 = self.base_delay;
        let mut k: u32 = 0;
        assert(pow2(0) == 1);
        assert(self.base_delay as nat * pow2(0) == self.base_delay as nat);
        while k < attempt
            invariant
                k <= attempt,
                d == backoff(self.base_delay, k as nat),
            decreases attempt - k,
        {
            let ghost bk = self.base_delay as nat * pow2(k as nat);
            assert(self.base_delay as nat * pow2((k + 1) as nat) == 2 * bk) by (
            nonlinear_arith)
                requires
                    pow2((k + 1) as nat) == 2 * pow2(k as nat),
                    bk == self.base_delay as nat * pow2(k as nat),
            ;
            if d > U64_MAX / 2 {
                d = U64_MAX;
            } else {
                d = d * 2;
            }
            k = k + 1;
        }
        d
    }

    /// Seconds to wait before retrying after failure `err` of attempt `attempt`: the
    /// server's retry-after if it gave one, else `base_delay * 2^attempt`.
    pub fn calculate_delay(&self, attempt: u32, err: &CloudSyncError) -> (d: u64)
        ensures
            d == self.delay_spec(attempt as nat, *err),
    {
        match err {
            CloudSyncError::RateLimitError { retry_after, .. } => *retry_after,
            _ => self.backoff_delay(attempt),
        }
    }

    /// The next step after failure `err` of attempt `attempt` (zero-based): give up on a
    /// terminal error or once the retry budget is spent, else retry after the delay.
    pub fn next_action(&self, attempt: u32, err: &CloudSyncError) -> (a: RetryAction)
        ensures
            a == self.action_spec(attempt as nat, *err),
    {
        if !self.is_retryable_error(err) || attempt >= self.max_retries {
            RetryAction::GiveUp
        } else {
            RetryAction::Retry { delay_secs: self.calculate_delay(attempt, err) }
        }
    }

    /// Retries made when attempt `attempt` onwards meet `outcomes` (`None` is a success).
    pub open spec fn retries_made(&self, outcomes: Seq<Option<CloudSyncError>>, attempt: nat) -> nat
        decreases outcomes.len() - attempt,
    {
        if attempt >= outcomes.len() {
            0
        } else {
            match outcomes[attempt as int] {
                None => 0,
                Some(e) => match self.action_spec(attempt, e) {
                    RetryAction::GiveUp => 0,
                    RetryAction::Retry { .. } => 1 + self.retries_made(outcomes, attempt + 1),
                },
            }
        }
    }
}

impl Default for RateLimiter {
    fn default() -> (r: RateLimiter)
        ensures
            r.max_retries == 3,
            r.base_delay == 1,
    {
        RateLimiter::new(3, 1)
    }
}

/// A failure that is not one of the cloud's own errors is transient when its text speaks
/// of the network, a timeout or a connection.
pub open spec fn is_transient_text(message: Seq<char>) -> bool {
    occurs_in(message, "network"@) || occurs_in(message, "timeout"@) || occurs_in(
        message,
        "connection"@,
    )
}

impl RateLimiter {
    /// The next step after a failure of attempt `attempt` that carries only a message
    /// (a transport failure): retry with exponential backoff while the budget lasts if the
    /// message names a network, timeout or connection problem, else give up.
    pub fn next_action_for_message(&self, attempt: u32, message: &str) -> (a: RetryAction)
        ensures
            a == (if !is_transient_text(message@) || attempt >= self.max_retries {
                RetryAction::GiveUp
            } else {
                RetryAction::Retry { delay_secs: backoff(self.base_delay, attempt as nat) as u64 }
            }),
    {
        let transient = contains_text(message, "network") || contains_text(message, "timeout")
            || contains_text(message, "connection");
        if !transient || attempt >= self.max_retries {
            RetryAction::GiveUp
        } else {
            RetryAction::Retry { delay_secs: self.backoff_delay(attempt) }
        }
    }
}

/// With `n` transient failures before a success, the limiter retries
/// `min(max_retries, n)` times.
pub proof fn lemma_transient_retries(
    limiter: RateLimiter,
    outcomes: Seq<Option<CloudSyncError>>,
    n: nat,
)
    requires
        n < outcomes.len(),
        outcomes[n as int] is None,
        forall|i: int| 0 <= i < n ==> (#[trigger] outcomes[i]) is Some && is_transient(
            outcomes[i]->Some_0,
        ),
    ensures
        limiter.retries_made(outcomes, 0) == if n < limiter.max_retries {
            n
        } else {
            limiter.max_retries as nat
        },
{
    lemma_transient_retries_from(limiter, outcomes, n, 0);
}

proof fn lemma_transient_retries_from(
    limiter: RateLimiter,
    outcomes: Seq<Option<CloudSyncError>>,
    n: nat,
    a: nat,
)
    requires
        a <= n < outcomes.len(),
        outcomes[n as int] is None,
        forall|i: int| 0 <= i < n ==> (#[trigger] outcomes[i]) is Some && is_transient(
            outcomes[i]->Some_0,
        ),
    ensures
        limiter.retries_made(outcomes, a) == if n < limiter.max_retries {
            (n - a) as nat
        } else if a <= limiter.max_retries {
            (limiter.max_retries - a) as nat
        } else {
            0
        },
    decreases n - a,
{
    if a < n {
        let _ = outcomes[a as int];
        lemma_transient_retries_from(limiter, outcomes, n, a + 1);
    }
}

/// A terminal failure of the first attempt is returned with no retry.
pub proof fn lemma_terminal_no_retry(limiter: RateLimiter, outcomes: Seq<Option<CloudSyncError>>)
    requires
        outcomes.len() > 0,
        outcomes[0] is Some,
        !is_transient(outcomes[0]->Some_0),
    ensures
        limiter.retries_made(outcomes, 0) == 0,
{
}

/// Without a server-specified wait, the delay is `base_delay * 2^attempt` (while it fits).
pub proof fn lemma_exponential_backoff(limiter: RateLimiter, attempt: nat, err: CloudSyncError)
    requires
        !(err is RateLimitError),
        limiter.base_delay as nat * pow2(attempt) <= U64_MAX as nat,
    ensures
        limiter.delay_spec(attempt, err) == limiter.base_delay as nat * pow2(attempt),
{
}

} // verus!
