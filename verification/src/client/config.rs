//! How patient a client is.

use vstd::prelude::*;

verus! {

/// The longest span: as many seconds as 64 bits count, and the last nanosecond of one more.
pub const LONGEST_SPAN_NANOS: u128 = 18_446_744_073_709_551_615_999_999_999;

/// A span of time, in nanoseconds.
#[derive(Debug, Clone, Copy, PartialEq, Eq, Structural)]
pub struct Span {
    pub nanos: u128,
}

impl Span {
    /// A span of whole milliseconds.
    pub fn from_millis(millis: u64) -> (span: Self)
        ensures
            span.nanos == millis * 1_000_000,
    {
        Span { nanos: millis as u128 * 1_000_000 }
    }

    /// A span of whole seconds.
    pub fn from_secs(secs: u64) -> (span: Self)
        ensures
            span.nanos == secs * 1_000_000_000,
    {
        Span { nanos: secs as u128 * 1_000_000_000 }
    }

    /// The whole milliseconds of the span.
    pub fn as_millis(&self) -> (millis: u128)
        ensures
            millis == self.nanos / 1_000_000,
    {
        self.nanos / 1_000_000
    }

    /// Twice the span, or the longest span where that is shorter.
    pub open spec fn twice(self) -> Span {
        if 2 * self.nanos > LONGEST_SPAN_NANOS {
            Span { nanos: LONGEST_SPAN_NANOS }
        } else {
            Span { nanos: (2 * self.nanos) as u128 }
        }
    }

    /// Twice the span, or the longest span where that is shorter.
    pub fn doubled(&self) -> (span: Self)
        ensures
            span == self.twice(),
    {
        if self.nanos > LONGEST_SPAN_NANOS / 2 {
            Span { nanos: LONGEST_SPAN_NANOS }
        } else {
            Span { nanos: self.nanos * 2 }
        }
    }
}

/// How often and how long a client tries.
#[derive(Debug)]
pub struct ClientConfig {
    pub retry_attempts: usize,
    pub initial_retry_delay: Span,
    pub request_timeout: Span,
    pub manager_connect_timeout: Span,
}

impl Clone for ClientConfig {
    fn clone(&self) -> (copy: Self)
        ensures
            copy == *self,
    {
        ClientConfig {
            retry_attempts: self.retry_attempts,
            initial_retry_delay: self.initial_retry_delay,
            request_timeout: self.request_timeout,
            manager_connect_timeout: self.manager_connect_timeout,
        }
    }
}

impl Default for ClientConfig {
    /// Three attempts, 50 milliseconds between the first two, and five seconds to wait for an
    /// answer or for a manager.
    fn default() -> (config: Self)
        ensures
            config.retry_attempts == 3,
            config.initial_retry_delay.nanos == 50 * 1_000_000,
            config.request_timeout.nanos == 5 * 1_000_000_000,
            config.manager_connect_timeout.nanos == 5 * 1_000_000_000,
    {
        ClientConfig {
            retry_attempts: 3,
            initial_retry_delay: Span::from_millis(50),
            request_timeout: Span::from_secs(5),
            manager_connect_timeout: Span::from_secs(5),
        }
    }
}

} // verus!
