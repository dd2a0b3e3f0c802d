//! The HTTP retry policy: up to three attempts per request, exponential
//! backoff after a timeout, terminal failure on anything else.

use vstd::prelude::*;

verus! {

/// What one delivery attempt came back with.
pub enum AttemptOutcome {
    /// A response arrived with this status code.
    Delivered { status: u16 },
    /// The transport timed out.
    TimedOut,
    /// The transport failed in some other way.
    Failed,
}

/// What the policy tells the driver to do next.
#[derive(PartialEq, Eq, Structural, Clone, Copy, Debug)]
pub enum RetryDecision {
    /// A successful response: hand it to the matcher pipeline.
    Accept,
    /// A terminal failure for this request: no retry.
    Reject,
    /// Sleep this many time-units, then attempt again.
    RetryAfter(u64),
    /// All attempts exhausted: this request yields no findings.
    GiveUp,
}

/// The retry state of one request.
pub struct RetryState {
    pub attempts_left: u8,
    pub next_delay: u64,
}

/// An HTTP status that counts as success.
pub open spec fn spec_is_success(status: u16) -> bool {
    200 <= status < 300
}

/// A state the policy can be in: at most three attempts, delays 2, 4, 8.
pub open spec fn retry_state_inv(s: RetryState) -> bool {
    1 <= s.attempts_left <= 3 && s.next_delay <= 8
}

/// The policy's step: a delivered response is accepted or terminally
/// rejected by its status; a timeout is retried with the current delay,
/// doubling it, until the attempts run out; any other failure is terminal.
pub open spec fn spec_step(s: RetryState, o: AttemptOutcome) -> (RetryDecision, RetryState) {
    match o {
        AttemptOutcome::Delivered { status } => if spec_is_success(status) {
            (RetryDecision::Accept, s)
        } else {
            (RetryDecision::Reject, s)
        },
        AttemptOutcome::Failed => (RetryDecision::Reject, s),
        AttemptOutcome::TimedOut => if s.attempts_left > 1 {
            (
                RetryDecision::RetryAfter(s.next_delay),
                RetryState {
                    attempts_left: (s.attempts_left - 1) as u8,
                    next_delay: (s.next_delay * 2) as u64,
                },
            )
        } else {
            (RetryDecision::GiveUp, RetryState { attempts_left: 0, next_delay: s.next_delay })
        },
    }
}

impl RetryState {
    /// A fresh request: three attempts, first backoff of two time-units.
    pub fn new() -> (r: RetryState)
        ensures
            r.attempts_left == 3,
            r.next_delay == 2,
            retry_state_inv(r),
    {
        RetryState { attempts_left: 3, next_delay: 2 }
    }

    /// Feeds one attempt's outcome to the policy.
    pub fn step(&mut self, outcome: &AttemptOutcome) -> (d: RetryDecision)
        requires
            retry_state_inv(*old(self)),
        ensures
            (d, *final (self)) == spec_step(*old(self), *outcome),
            final (self).next_delay <= 16,
    {
        match outcome {
            AttemptOutcome::Delivered { status } => {
                if 200 <= *status && *status < 300 {
                    RetryDecision::Accept
                } else {
                    RetryDecision::Reject
                }
            },
            AttemptOutcome::Failed => RetryDecision::Reject,
            AttemptOutcome::TimedOut => {
                if self.attempts_left > 1 {
                    let delay = self.next_delay;
                    self.attempts_left = self.attempts_left - 1;
                    self.next_delay = self.next_delay * 2;
                    RetryDecision::RetryAfter(delay)
                } else {
                    self.attempts_left = 0;
                    RetryDecision::GiveUp
                }
            },
        }
    }
}

/// A transport that times out on every attempt is tried exactly three
/// times, with backoff delays of 2 and 4 time-units between the attempts,
/// and is then given up: no response is ever accepted, so the request
/// yields no findings.
pub proof fn lemma_retry_policy_timeouts()
    ensures
        ({
            let s0 = RetryState { attempts_left: 3, next_delay: 2 };
            let (d1, s1) = spec_step(s0, AttemptOutcome::TimedOut);
            let (d2, s2) = spec_step(s1, AttemptOutcome::TimedOut);
            let (d3, _s3) = spec_step(s2, AttemptOutcome::TimedOut);
            &&& d1 == RetryDecision::RetryAfter(2u64)
            &&& d2 == RetryDecision::RetryAfter(4u64)
            &&& d3 == RetryDecision::GiveUp
        }),
{
}

/// A non-success status is terminally rejected with no retry, whatever
/// attempts are left.
pub proof fn lemma_status_failure_no_retry(s: RetryState, status: u16)
    requires
        !spec_is_success(status),
    ensures
        spec_step(s, AttemptOutcome::Delivered { status }).0 == RetryDecision::Reject,
        spec_step(s, AttemptOutcome::Delivered { status }).1 == s,
{
}

} // verus!
