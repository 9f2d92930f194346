//! Fetch policy: mandatory checksum verification and bounded retry with
//! exponential backoff. The transport itself lives outside the library; this
//! module decides, for each transport outcome, whether to accept the bytes,
//! retry, or fail the package.

use vstd::prelude::*;

verus! {

/// Tuning of the retry loop; an operational parameter, not a correctness
/// property, hence configurable.
#[derive(Clone, Copy, PartialEq, Eq, Structural, Debug)]
pub struct RetryPolicy {
    /// Transport attempts allowed per package, at least one.
    pub max_attempts: u32,
    /// Delay before the second attempt; it doubles on each further attempt.
    pub base_delay_ms: u64,
}

/// Per-package progress of the retry loop.
#[derive(Clone, Copy, PartialEq, Eq, Structural, Debug)]
pub struct FetchState {
    /// Transport attempts made so far.
    pub attempts_used: u32,
    /// Whether the single re-fetch allowed after a checksum mismatch has
    /// been spent.
    pub checksum_retry_used: bool,
}

/// What one transport attempt produced: a complete body with the digest
/// computed while streaming, or a transport failure.
#[derive(Clone, Copy, PartialEq, Eq, Structural, Debug)]
pub enum FetchOutcome {
    Delivered { digest: u64 },
    TransportFailed,
}

/// The error a failed package surfaces.
#[derive(Clone, Copy, PartialEq, Eq, Structural, Debug)]
pub enum FetchError {
    /// Transport kept failing up to the attempt bound.
    NetworkError,
    /// The digest disagreed with the manifest twice.
    ChecksumMismatch,
}

/// What the fetch loop should do next.
#[derive(Clone, Copy, PartialEq, Eq, Structural, Debug)]
pub enum FetchDecision {
    /// The bytes are verified: hand them to the unpack stage.
    Accept,
    /// Try the same manifest URL again after the given delay.
    Retry { delay_ms: u64 },
    /// Give the package up.
    Fail { error: FetchError },
}

/// The backoff delay before retrying after `attempts` failed transport
/// attempts: the base delay doubled per attempt, saturating.
pub open spec fn backoff_delay_spec(base: u64, attempts: nat) -> u64
    decreases attempts,
{
    if attempts == 0 {
        base
    } else {
        let p = backoff_delay_spec(base, (attempts - 1) as nat);
        if p > u64::MAX / 2 {
            u64::MAX
        } else {
            (p * 2) as u64
        }
    }
}

/// The backoff delay before retrying after `attempts` failed attempts.
pub fn backoff_delay(base: u64, attempts: u32) -> (r: u64)
    ensures
        r == backoff_delay_spec(base, attempts as nat),
{
    let mut d: u64 = base;
    let mut i: u32 = 0;
    while i < attempts
        invariant
            i <= attempts,
            d == backoff_delay_spec(base, i as nat),
        decreases attempts - i,
    {
        if d > u64::MAX / 2 {
            d = u64::MAX;
        } else {
            d = d * 2;
        }
        i = i + 1;
    }
    d
}

/// What the fetch loop does after one transport attempt: bytes are accepted
/// exactly when their digest equals the declared checksum; a mismatch is
/// retried once, then surfaced; a transport failure is retried with
/// exponential backoff up to the attempt bound.
pub open spec fn fetch_step_spec(
    policy: RetryPolicy,
    state: FetchState,
    declared_checksum: u64,
    outcome: FetchOutcome,
) -> (FetchState, FetchDecision) {
    match outcome {
        FetchOutcome::Delivered { digest } => {
            if digest == declared_checksum {
                (state, FetchDecision::Accept)
            } else if !state.checksum_retry_used {
                (
                    FetchState { checksum_retry_used: true, ..state },
                    FetchDecision::Retry { delay_ms: 0 },
                )
            } else {
                (state, FetchDecision::Fail { error: FetchError::ChecksumMismatch })
            }
        },
        FetchOutcome::TransportFailed => {
            if state.attempts_used as int + 1 < policy.max_attempts as int {
                (
                    FetchState { attempts_used: (state.attempts_used + 1) as u32, ..state },
                    FetchDecision::Retry {
                        delay_ms: backoff_delay_spec(policy.base_delay_ms, state.attempts_used as nat),
                    },
                )
            } else {
                (state, FetchDecision::Fail { error: FetchError::NetworkError })
            }
        },
    }
}

/// Decides what the fetch loop does after one transport attempt for a
/// package whose manifest-declared checksum is `declared_checksum`.
///
/// Bytes are accepted exactly when their digest equals the declared
/// checksum, so a mismatching body is never handed to the unpack stage. A
/// mismatch is retried once (intermittent transport corruption being the
/// common cause), then surfaced as a likely manifest problem; a transport
/// failure is retried with exponential backoff up to the attempt bound.
pub fn next_fetch_step(
    policy: &RetryPolicy,
    state: &FetchState,
    declared_checksum: u64,
    outcome: FetchOutcome,
) -> (r: (FetchState, FetchDecision))
    ensures
        r == fetch_step_spec(*policy, *state, declared_checksum, outcome),
        r.1 == FetchDecision::Accept <==> (outcome matches FetchOutcome::Delivered { digest }
            && digest == declared_checksum),
{
    match outcome {
        FetchOutcome::Delivered { digest } => {
            if digest == declared_checksum {
                (*state, FetchDecision::Accept)
            } else if !state.checksum_retry_used {
                (
                    FetchState { checksum_retry_used: true, ..*state },
                    FetchDecision::Retry { delay_ms: 0 },
                )
            } else {
                (*state, FetchDecision::Fail { error: FetchError::ChecksumMismatch })
            }
        },
        FetchOutcome::TransportFailed => {
            if state.attempts_used < u32::MAX && state.attempts_used + 1 < policy.max_attempts {
                (
                    FetchState { attempts_used: state.attempts_used + 1, ..*state },
                    FetchDecision::Retry {
                        delay_ms: backoff_delay(policy.base_delay_ms, state.attempts_used),
                    },
                )
            } else {
                (*state, FetchDecision::Fail { error: FetchError::NetworkError })
            }
        },
    }
}

} // verus!
