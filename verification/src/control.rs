//! Limits on one engine invocation, and the signals that end it early.
use crate::fault::{fault, passes, EngineError, Fault};
use std::sync::atomic::{AtomicBool, Ordering};
use std::sync::Arc;
use std::time::Instant;
use vstd::prelude::*;

verus! {

pub const DEFAULT_EXECUTION_TIMEOUT_MS: u64 = 60_000;

pub const DEFAULT_EXECUTION_POLL_INTERVAL_MS: u64 = 10;

pub const DEFAULT_MAX_INPUT_BYTES: u64 = 8 * 1024 * 1024;

pub const DEFAULT_MAX_OUTPUT_BYTES: u64 = 64 * 1024 * 1024;

pub const DEFAULT_MAX_LOG_BYTES: u64 = 4 * 1024 * 1024;

/// Portable execution limits applied outside the serialized circuit/request schema.
/// A value of zero disables the corresponding limit.
#[derive(Clone, Copy, Debug, PartialEq, Eq, Structural)]
pub struct ExecutionPolicy {
    /// Maximum wall-clock runtime for one engine invocation. `0` disables timeout.
    pub timeout_ms: u64,
    /// Poll interval used by process-backed engines while enforcing controls.
    pub poll_interval_ms: u64,
    /// Maximum generated solver input size. `0` disables the limit.
    pub max_input_bytes: u64,
    /// Maximum normalized solver-result file size. `0` disables the limit.
    pub max_output_bytes: u64,
    /// Maximum solver log file size. `0` disables the limit.
    pub max_log_bytes: u64,
}

/// The policy that applies where nothing else is asked for.
pub open spec fn default_policy() -> ExecutionPolicy {
    ExecutionPolicy {
        timeout_ms: DEFAULT_EXECUTION_TIMEOUT_MS,
        poll_interval_ms: DEFAULT_EXECUTION_POLL_INTERVAL_MS,
        max_input_bytes: DEFAULT_MAX_INPUT_BYTES,
        max_output_bytes: DEFAULT_MAX_OUTPUT_BYTES,
        max_log_bytes: DEFAULT_MAX_LOG_BYTES,
    }
}

impl Default for ExecutionPolicy {
    fn default() -> (r: Self)
        ensures
            r == default_policy(),
    {
        ExecutionPolicy {
            timeout_ms: DEFAULT_EXECUTION_TIMEOUT_MS,
            poll_interval_ms: DEFAULT_EXECUTION_POLL_INTERVAL_MS,
            max_input_bytes: DEFAULT_MAX_INPUT_BYTES,
            max_output_bytes: DEFAULT_MAX_OUTPUT_BYTES,
            max_log_bytes: DEFAULT_MAX_LOG_BYTES,
        }
    }
}

impl ExecutionPolicy {
    /// An explicit unbounded policy for trusted/offline workloads.
    pub fn unbounded() -> (r: Self)
        ensures
            r == (ExecutionPolicy {
                timeout_ms: 0,
                poll_interval_ms: DEFAULT_EXECUTION_POLL_INTERVAL_MS,
                max_input_bytes: 0,
                max_output_bytes: 0,
                max_log_bytes: 0,
            }),
    {
        ExecutionPolicy {
            timeout_ms: 0,
            poll_interval_ms: DEFAULT_EXECUTION_POLL_INTERVAL_MS,
            max_input_bytes: 0,
            max_output_bytes: 0,
            max_log_bytes: 0,
        }
    }

    /// What is wrong with the policy, if anything.
    pub open spec fn failure(self) -> Option<Fault> {
        if self.poll_interval_ms == 0 {
            Some(
                fault(
                    "execution_policy_invalid"@,
                    "execution poll interval must be greater than zero"@,
                ),
            )
        } else {
            None
        }
    }

    pub fn validate(&self) -> (r: Result<(), EngineError>)
        ensures
            passes(r, self.failure()),
    {
        if self.poll_interval_ms == 0 {
            return Err(
                EngineError::new(
                    "execution_policy_invalid",
                    "execution poll interval must be greater than zero",
                ),
            );
        }
        Ok(())
    }
}

/// Cooperative, cloneable cancellation signal shared across threads/adapters.
#[derive(Clone, Debug)]
pub struct CancellationToken {
    cancelled: Arc<AtomicBool>,
}

impl CancellationToken {
    /// A signal that has not been given. Other threads may give it at any
    /// time, so nothing is promised of what is read from it.
    pub fn new() -> Self {
        CancellationToken { cancelled: Arc::new(AtomicBool::new(false)) }
    }

    pub fn cancel(&self) {
        self.cancelled.store(true, Ordering::Release);
    }

    pub fn is_cancelled(&self) -> bool {
        self.cancelled.load(Ordering::Acquire)
    }
}

/// Non-serialized execution controls for one simulation run.
#[derive(Clone, Debug)]
pub struct ExecutionControl {
    pub policy: ExecutionPolicy,
    pub cancellation: CancellationToken,
}

impl ExecutionControl {
    pub fn new(policy: ExecutionPolicy) -> (r: Self)
        ensures
            r.policy == policy,
    {
        ExecutionControl { policy, cancellation: CancellationToken::new() }
    }

    pub fn with_cancellation(self, cancellation: CancellationToken) -> (r: Self)
        ensures
            r.policy == self.policy,
            r.cancellation == cancellation,
    {
        ExecutionControl { policy: self.policy, cancellation }
    }
}

impl Default for ExecutionControl {
    fn default() -> (r: Self)
        ensures
            r.policy == default_policy(),
    {
        ExecutionControl::new(ExecutionPolicy::default())
    }
}

/// Why nothing is started under a policy and a signal: the policy is not valid, or
/// the signal has been given.
pub open spec fn signal_failure(
    policy: ExecutionPolicy,
    cancelled: bool,
    message: Seq<char>,
) -> Option<Fault> {
    match policy.failure() {
        Some(f) => Some(f),
        None => if cancelled {
            Some(fault("execution_cancelled"@, message))
        } else {
            None
        },
    }
}

pub fn check_signal(policy: &ExecutionPolicy, cancelled: bool, message: &str) -> (r: Result<
    (),
    EngineError,
>)
    ensures
        passes(r, signal_failure(*policy, cancelled, message@)),
{
    match policy.validate() {
        Err(e) => {
            return Err(e);
        },
        Ok(_) => {},
    }
    if cancelled {
        return Err(EngineError::new("execution_cancelled", message));
    }
    Ok(())
}

/// `std::time::Instant`: a reading of the machine's monotonic clock.
#[verifier::external_type_specification]
#[verifier::external_body]
pub struct ExInstant(Instant);

/// `Instant::now` reads the clock. Nothing is promised of the reading.
#[verifier::external_body]
pub(crate) fn clock_now() -> Instant {
    Instant::now()
}

/// `Instant::elapsed` reads the clock again and gives the time since
/// `started`, here in whole milliseconds. Nothing is promised of it.
#[verifier::external_body]
pub(crate) fn elapsed_millis(started: &Instant) -> u128 {
    started.elapsed().as_millis()
}

} // verus!
