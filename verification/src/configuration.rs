//! Loop-level runtime policy.
use std::time::Duration;

use vstd::prelude::*;

use crate::error::{AgentError, AgentErrorView};

verus! {

/// The length of `d` in nanoseconds, as `Duration::as_nanos` reports it.
pub uninterp spec fn duration_nanos(d: Duration) -> u128;

/// Calls `Duration::as_nanos`: the whole length of `d` in nanoseconds.
#[verifier::external_body]
fn nanos_of(d: Duration) -> (r: u128)
    ensures
        r == duration_nanos(d),
{
    d.as_nanos()
}

/// Calls `Duration::from_secs`, which makes a duration of `secs` whole
/// seconds.
#[verifier::external_body]
fn duration_from_secs(secs: u64) -> (r: Duration)
    ensures
        duration_nanos(r) == secs * 1_000_000_000,
{
    Duration::from_secs(secs)
}

/// Harness-wide runtime configuration.
///
/// Provider-specific settings and concrete MCP transport settings belong to
/// the embedding layer; this type only contains loop-level policy.
#[derive(Debug, Clone, Copy, PartialEq, Eq)]
pub struct Configuration {
    pub max_step: usize,
    pub num_tool_per_load: usize,
    /// Maximum number of tool calls that may be in flight in one model step.
    pub max_concurrent_tools: usize,
    pub tool_execute_timeout: Duration,
    pub max_tool_retries: usize,
    pub retry_backoff: Duration,
    pub continue_after_tool_error: bool,
}

impl Default for Configuration {
    fn default() -> (r: Self)
        ensures
            r.max_step == 16,
            r.num_tool_per_load == 8,
            r.max_concurrent_tools == 4,
            duration_nanos(r.tool_execute_timeout) == 30_000_000_000,
            r.max_tool_retries == 2,
            duration_nanos(r.retry_backoff) == 1_000_000_000,
            r.continue_after_tool_error,
    {
        Configuration {
            max_step: 16,
            num_tool_per_load: 8,
            max_concurrent_tools: 4,
            tool_execute_timeout: duration_from_secs(30),
            max_tool_retries: 2,
            retry_backoff: duration_from_secs(1),
            continue_after_tool_error: true,
        }
    }
}

/// The first problem that keeps a loop with configuration `c` from starting,
/// checked in this order; `executor_initialized` says whether the tool
/// executor has loaded its tools.
pub open spec fn configuration_problem(c: Configuration, executor_initialized: bool) -> Option<
    Seq<char>,
> {
    if c.max_step == 0 {
        Some("max_steps must be greater than zero"@)
    } else if c.num_tool_per_load == 0 {
        Some("num_tool_per_load must be greater than zero"@)
    } else if c.max_concurrent_tools == 0 {
        Some("max_concurrent_tools must be greater than zero"@)
    } else if duration_nanos(c.tool_execute_timeout) == 0 {
        Some("tool_execute_timeout must be greater than zero"@)
    } else if duration_nanos(c.retry_backoff) == 0 && c.max_tool_retries > 0 {
        Some("retry_backoff must be greater than zero when retries are enabled"@)
    } else if !executor_initialized {
        Some("tool executor must be initialized before running the agent loop"@)
    } else {
        None
    }
}

impl Configuration {
    /// Checks the configuration before a loop starts.
    pub fn validate(&self, executor_initialized: bool) -> (r: Result<(), AgentError>)
        ensures
            match configuration_problem(*self, executor_initialized) {
                Some(m) => r matches Err(e) && e@ == AgentErrorView::InvalidConfig(m),
                None => r is Ok,
            },
    {
        if self.max_step == 0 {
            return Err(AgentError::InvalidConfig("max_steps must be greater than zero"));
        }
        if self.num_tool_per_load == 0 {
            return Err(AgentError::InvalidConfig("num_tool_per_load must be greater than zero"));
        }
        if self.max_concurrent_tools == 0 {
            return Err(AgentError::InvalidConfig("max_concurrent_tools must be greater than zero"));
        }
        if nanos_of(self.tool_execute_timeout) == 0 {
            return Err(AgentError::InvalidConfig("tool_execute_timeout must be greater than zero"));
        }
        if nanos_of(self.retry_backoff) == 0 && self.max_tool_retries > 0 {
            return Err(
                AgentError::InvalidConfig(
                    "retry_backoff must be greater than zero when retries are enabled",
                ),
            );
        }
        if !executor_initialized {
            return Err(
                AgentError::InvalidConfig(
                    "tool executor must be initialized before running the agent loop",
                ),
            );
        }
        Ok(())
    }
}

} // verus!
