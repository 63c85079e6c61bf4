//! Resolving the three configuration knobs at startup.
//!
//! The layered configuration supplies a severity threshold, the concurrency
//! ceiling and the backpressure timeout; a deployment-role selector chooses
//! the layers.  A missing selector, an unparsable threshold, a ceiling under
//! one and a negative timeout are each fatal before any dispatch begins.

use vstd::prelude::*;
use crate::level::{spec_parse_threshold, parse_threshold, Threshold};

verus! {

/// The fatal conditions that end the process before dispatch begins.
#[derive(Clone, Copy, Debug, PartialEq, Eq, Structural)]
pub enum StartupConfigError {
    /// No deployment-role selector was supplied.
    MissingRoleSelector,
    /// The configured severity threshold parses to nothing.
    UnparsableLevel,
    /// The configured ceiling admits no operation at all.
    NonPositiveConcurrency,
    /// The configured timeout is negative.
    NegativeTimeout,
}

/// The three scalar knobs the configuration supplies.
#[derive(Clone, Copy, Debug, PartialEq, Eq, Structural)]
pub struct Knobs {
    /// The minimum severity an event needs to be emitted.
    pub threshold: Threshold,
    /// The soft in-flight ceiling.
    pub ceiling: u64,
    /// The bound on backpressure waits during dispatch, in seconds.
    pub timeout_secs: u64,
}

/// Whether the supplied values make a valid startup configuration.
pub open spec fn knobs_valid(
    role_present: bool,
    level: Seq<char>,
    concurrency: i64,
    timeout: i64,
) -> bool {
    &&& role_present
    &&& spec_parse_threshold(level) is Some
    &&& concurrency >= 1
    &&& timeout >= 0
}

/// The first fatal condition among the supplied values: the role selector is
/// checked before the threshold, the threshold before the ceiling, the
/// ceiling before the timeout.
pub open spec fn first_startup_error(
    role_present: bool,
    level: Seq<char>,
    concurrency: i64,
    timeout: i64,
) -> StartupConfigError {
    if !role_present {
        StartupConfigError::MissingRoleSelector
    } else if spec_parse_threshold(level) is None {
        StartupConfigError::UnparsableLevel
    } else if concurrency < 1 {
        StartupConfigError::NonPositiveConcurrency
    } else {
        StartupConfigError::NegativeTimeout
    }
}

/// Resolve the knobs from the raw configuration values, or name the first
/// fatal condition among them.
pub fn resolve_knobs(role_present: bool, level: &str, concurrency: i64, timeout: i64) -> (r:
    Result<Knobs, StartupConfigError>)
    ensures
        r is Ok <==> knobs_valid(role_present, level@, concurrency, timeout),
        r matches Ok(k) ==> {
            &&& Some(k.threshold) == spec_parse_threshold(level@)
            &&& k.ceiling == concurrency
            &&& k.timeout_secs == timeout
        },
        r matches Err(e) ==> e == first_startup_error(role_present, level@, concurrency, timeout),
{
    if !role_present {
        return Err(StartupConfigError::MissingRoleSelector);
    }
    let threshold = match parse_threshold(level) {
        Some(t) => t,
        None => {
            return Err(StartupConfigError::UnparsableLevel);
        },
    };
    if concurrency < 1 {
        return Err(StartupConfigError::NonPositiveConcurrency);
    }
    if timeout < 0 {
        return Err(StartupConfigError::NegativeTimeout);
    }
    Ok(Knobs { threshold, ceiling: concurrency as u64, timeout_secs: timeout as u64 })
}

} // verus!
