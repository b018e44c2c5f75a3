//! The upstream retry policy as a state machine: each attempt's outcome
//! leads to delivery, another attempt, or a final failure.
use vstd::prelude::*;

verus! {

/// What one upstream attempt came to.
pub enum AttemptOutcome {
    /// The upstream answered with this HTTP status.
    Status(u16),
    /// The connection failed.
    Transport,
    /// The attempt ran past its time budget and was cancelled.
    TimedOut,
}

/// What to do after an attempt.
pub enum RetryDecision {
    /// A 2xx status: hand the body on.
    Deliver,
    /// Try again.
    Retry,
    /// A status that is not retried, or a 5xx with no retries left.
    FailStatus(u16),
    /// A connection failure with no retries left.
    FailTransport,
    /// A timeout with no retries left.
    FailTimeout,
}

/// The decision for an outcome after `retries` of `max_retries` retries were used.
pub open spec fn decision_for(retries: u32, max_retries: u32, outcome: AttemptOutcome) -> RetryDecision {
    let left = retries < max_retries;
    match outcome {
        AttemptOutcome::Status(s) => if 200 <= s < 300 {
            RetryDecision::Deliver
        } else if s >= 500 && left {
            RetryDecision::Retry
        } else {
            RetryDecision::FailStatus(s)
        },
        AttemptOutcome::Transport => if left {
            RetryDecision::Retry
        } else {
            RetryDecision::FailTransport
        },
        AttemptOutcome::TimedOut => if left {
            RetryDecision::Retry
        } else {
            RetryDecision::FailTimeout
        },
    }
}

/// The decision for an outcome: deliver on 2xx; retry on 5xx, a connection
/// failure or a timeout while retries are left; otherwise fail, keeping the
/// status, or telling a timeout from a connection failure.
pub fn decide(retries: u32, max_retries: u32, outcome: &AttemptOutcome) -> (r: RetryDecision)
    ensures
        r == decision_for(retries, max_retries, *outcome),
{
    let left = retries < max_retries;
    match outcome {
        AttemptOutcome::Status(s) => if 200 <= *s && *s < 300 {
            RetryDecision::Deliver
        } else if *s >= 500 && left {
            RetryDecision::Retry
        } else {
            RetryDecision::FailStatus(*s)
        },
        AttemptOutcome::Transport => if left {
            RetryDecision::Retry
        } else {
            RetryDecision::FailTransport
        },
        AttemptOutcome::TimedOut => if left {
            RetryDecision::Retry
        } else {
            RetryDecision::FailTimeout
        },
    }
}

/// Retries used so far against the budget of one upstream fetch.
pub struct RetryState {
    pub retries: u32,
    pub max_retries: u32,
}

impl RetryState {
    /// A fresh fetch with `max_retries` retries allowed (so at most
    /// `max_retries + 1` attempts).
    pub fn new(max_retries: u32) -> (r: Self)
        ensures
            r.retries == 0,
            r.max_retries == max_retries,
    {
        RetryState { retries: 0, max_retries }
    }

    /// Records an attempt's outcome and says what to do next; a retry uses
    /// up one retry of the budget.
    pub fn on_outcome(&mut self, outcome: &AttemptOutcome) -> (r: RetryDecision)
        ensures
            r == decision_for(old(self).retries, old(self).max_retries, *outcome),
            final(self).max_retries == old(self).max_retries,
            old(self).retries <= old(self).max_retries ==> final(self).retries
                <= final(self).max_retries,
            r is Retry ==> final(self).retries == old(self).retries + 1,
            !(r is Retry) ==> final(self).retries == old(self).retries,
    {
        let d = decide(self.retries, self.max_retries, outcome);
        if let RetryDecision::Retry = d {
            self.retries = self.retries + 1;
        }
        d
    }
}

} // verus!
