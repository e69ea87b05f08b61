//! One login attempt: the retry discipline around the transport, the outcome
//! it ends in, and the record kept of it.

use vstd::prelude::*;
use crate::classify::{classify, lowered_body, opt_chars, response_verdict};

verus! {

/// Retries after a transport failure, beyond the first try.
pub const MAX_RETRIES: u32 = 3;

/// Backoff step: the n-th retry waits n times this long.
pub const RETRY_BACKOFF_MS: u64 = 200;

/// An attempt slower than this is flagged as slow.
pub const SLOW_RESPONSE_MS: u64 = 5000;

/// What to do after a transport failure.
#[derive(Debug, PartialEq, Eq, Structural)]
pub enum RetryStep {
    /// Wait this long, then send the same request again.
    RetryAfter { delay_ms: u64 },
    /// No tries are left: the attempt failed.
    Exhausted,
}

/// The step owed after `failures` transport failures in a row.
pub open spec fn retry_step_after(max_retries: u32, failures: nat) -> RetryStep {
    if failures > max_retries {
        RetryStep::Exhausted
    } else {
        RetryStep::RetryAfter { delay_ms: (RETRY_BACKOFF_MS * failures) as u64 }
    }
}

/// Counts the transport failures of one attempt and decides on retries.
pub struct RetryTracker {
    max_retries: u32,
    failures: u64,
    last_error: Option<String>,
}

impl RetryTracker {
    pub closed spec fn spec_max_retries(&self) -> u32 {
        self.max_retries
    }

    pub closed spec fn spec_failures(&self) -> nat {
        self.failures as nat
    }

    pub closed spec fn spec_last_error(&self) -> Option<Seq<char>> {
        match self.last_error {
            Some(e) => Some(e@),
            None => None,
        }
    }

    /// Every try has been spent.
    pub open spec fn exhausted(&self) -> bool {
        self.spec_failures() > self.spec_max_retries()
    }

    /// Well-formed: failures stop one past the retry budget, and the last
    /// error is known once a failure was seen.
    pub closed spec fn wf(&self) -> bool {
        &&& self.failures <= self.max_retries as u64 + 1
        &&& (self.failures > 0 <==> self.last_error is Some)
    }

    /// A tracker for an attempt that has not been tried yet.
    pub fn new(max_retries: u32) -> (t: Self)
        ensures
            t.wf(),
            t.spec_max_retries() == max_retries,
            t.spec_failures() == 0,
            t.spec_last_error() is None,
    {
        RetryTracker { max_retries, failures: 0, last_error: None }
    }

    /// A tracker with the fixed budget of three retries (four tries in all).
    pub fn standard() -> (t: Self)
        ensures
            t.wf(),
            t.spec_max_retries() == MAX_RETRIES,
            t.spec_failures() == 0,
            t.spec_last_error() is None,
    {
        Self::new(MAX_RETRIES)
    }

    /// Transport failures seen so far.
    pub fn failures(&self) -> (n: u64)
        ensures
            n == self.spec_failures(),
    {
        self.failures
    }

    /// Whether every try has been spent.
    pub fn is_exhausted(&self) -> (r: bool)
        requires
            self.wf(),
        ensures
            r == self.exhausted(),
    {
        self.failures > self.max_retries as u64
    }

    /// Records a transport failure and says whether to retry, and after how long:
    /// the n-th failure waits 200 ms × n, and the failure after the last retry
    /// ends the attempt.
    pub fn record_failure(&mut self, error: String) -> (step: RetryStep)
        requires
            old(self).wf(),
            !old(self).exhausted(),
        ensures
            final(self).wf(),
            final(self).spec_max_retries() == old(self).spec_max_retries(),
            final(self).spec_failures() == old(self).spec_failures() + 1,
            final(self).spec_last_error() == Some(error@),
            step == retry_step_after(final(self).spec_max_retries(), final(self).spec_failures()),
    {
        self.failures = self.failures + 1;
        self.last_error = Some(error);
        if self.failures > self.max_retries as u64 {
            RetryStep::Exhausted
        } else {
            RetryStep::RetryAfter { delay_ms: RETRY_BACKOFF_MS * self.failures }
        }
    }

    /// The outcome of an attempt whose tries are all spent: the last error.
    pub fn into_failure(self, elapsed_ms: u64) -> (o: AttemptOutcome)
        requires
            self.wf(),
            self.exhausted(),
        ensures
            outcome_ok(o),
            o matches AttemptOutcome::TransportFailed { error, elapsed_ms: e }
                && Some(error@) == self.spec_last_error() && e == elapsed_ms,
    {
        match self.last_error {
            Some(error) => AttemptOutcome::TransportFailed { error, elapsed_ms },
            None => AttemptOutcome::TransportFailed { error: String::new(), elapsed_ms },
        }
    }
}

/// How one attempt ended.
#[derive(Debug)]
pub enum AttemptOutcome {
    /// A response came back, with its status and the classifier's verdict.
    Responded { status: u16, success: bool, elapsed_ms: u64 },
    /// No response after every try: the last transport error.
    TransportFailed { error: String, elapsed_ms: u64 },
}

/// An HTTP status code: three digits, 100 to 999.
pub open spec fn is_http_status(status: u16) -> bool {
    100 <= status <= 999
}

/// A well-formed outcome: a response carries a real HTTP status, so that
/// status 0 is left to mean that no response came back.
pub open spec fn outcome_ok(o: AttemptOutcome) -> bool {
    match o {
        AttemptOutcome::Responded { status, .. } => is_http_status(status),
        AttemptOutcome::TransportFailed { .. } => true,
    }
}

impl AttemptOutcome {
    /// Whether the outcome is well formed; see `outcome_ok`.
    pub fn is_well_formed(&self) -> (r: bool)
        ensures
            r == outcome_ok(*self),
    {
        match self {
            AttemptOutcome::Responded { status, .. } => 100 <= *status && *status <= 999,
            AttemptOutcome::TransportFailed { .. } => true,
        }
    }

    /// The outcome for a response: its status and the verdict of `classify`
    /// on status, `Location` header and body.
    pub fn responded(status: u16, location: Option<&str>, body: Option<&str>, elapsed_ms: u64) -> (o: Self)
        requires
            is_http_status(status),
        ensures
            outcome_ok(o),
            o matches AttemptOutcome::Responded { status: s, success, elapsed_ms: e }
                && s == status && e == elapsed_ms
                && success == response_verdict(status, opt_chars(location), lowered_body(body)),
    {
        let success = classify(status, location, body);
        AttemptOutcome::Responded { status, success, elapsed_ms }
    }

    /// Wall time of the attempt, first try to last.
    pub fn elapsed_ms(&self) -> (e: u64)
        ensures
            e == match self {
                AttemptOutcome::Responded { elapsed_ms, .. } => *elapsed_ms,
                AttemptOutcome::TransportFailed { elapsed_ms, .. } => *elapsed_ms,
            },
    {
        match self {
            AttemptOutcome::Responded { elapsed_ms, .. } => *elapsed_ms,
            AttemptOutcome::TransportFailed { elapsed_ms, .. } => *elapsed_ms,
        }
    }
}

/// Whether an attempt that took `elapsed_ms` is to be flagged as slow.
pub fn is_slow_response(elapsed_ms: u64) -> (r: bool)
    ensures
        r == (elapsed_ms > SLOW_RESPONSE_MS),
{
    elapsed_ms > SLOW_RESPONSE_MS
}

/// Transport that always fails: the first `MAX_RETRIES` failures each call
/// for a retry, after 200 ms, 400 ms and 600 ms, and the next one ends the
/// attempt, so exactly four tries are made.
pub proof fn lemma_retry_exhaustion()
    ensures
        retry_step_after(MAX_RETRIES, 1) == (RetryStep::RetryAfter { delay_ms: 200 }),
        retry_step_after(MAX_RETRIES, 2) == (RetryStep::RetryAfter { delay_ms: 400 }),
        retry_step_after(MAX_RETRIES, 3) == (RetryStep::RetryAfter { delay_ms: 600 }),
        retry_step_after(MAX_RETRIES, 4) == RetryStep::Exhausted,
        forall|n: nat| 1 <= n <= MAX_RETRIES ==> #[trigger] retry_step_after(MAX_RETRIES, n) is RetryAfter,
{
}

} // verus!
