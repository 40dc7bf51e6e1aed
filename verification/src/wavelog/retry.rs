//! The retry policy that every POST shares.
use crate::duration::Duration;
use crate::wavelog::client::{WavelogError, WavelogErrorView};
use vstd::prelude::*;

verus! {

/// How many times a request is sent at most.
pub const ATTEMPTS: usize = 3;

/// The sleep before an attempt, in seconds.
pub open spec fn sleep_secs(attempt: int) -> int {
    if attempt <= 0 {
        0
    } else if attempt == 1 {
        1
    } else {
        4
    }
}

/// A failure that another attempt may mend: the transport failed, or Wavelog
/// did.
pub open spec fn retryable(e: WavelogErrorView) -> bool {
    match e {
        WavelogErrorView::Http(_) => true,
        WavelogErrorView::Status { status, .. } => status >= 500,
        _ => false,
    }
}

/// Tells whether another attempt may mend a failure.
pub fn is_retryable(e: &WavelogError) -> (yes: bool)
    ensures
        yes == retryable(e@),
{
    match e {
        WavelogError::Http(_) => true,
        WavelogError::Status { status, .. } => *status >= 500,
        _ => false,
    }
}

/// An attempt with this result is the last one.
pub open spec fn is_final(attempt: int, result: Result<(), WavelogErrorView>) -> bool {
    match result {
        Ok(_) => true,
        Err(e) => !retryable(e) || attempt + 1 >= ATTEMPTS,
    }
}

/// What the result of an attempt says.
pub open spec fn result_view(result: Result<(), WavelogError>) -> Result<(), WavelogErrorView> {
    match result {
        Ok(u) => Ok(u),
        Err(e) => Err(e@),
    }
}

/// What to do after an attempt.
pub enum RetryStep {
    /// Sleep, then attempt again.
    Again(Duration),
    /// Return this.
    Done(Result<(), WavelogError>),
}

/// A request that is being attempted.
pub struct Retries {
    attempt: usize,
}

impl Retries {
    /// The attempts that have been made.
    pub closed spec fn spec_attempt(&self) -> int {
        self.attempt as int
    }

    pub open spec fn wf(&self) -> bool {
        0 <= self.spec_attempt() < ATTEMPTS
    }

    /// The first attempt is made at once.
    pub fn begin() -> (r: Retries)
        ensures
            r.wf(),
            r.spec_attempt() == 0,
    {
        Retries { attempt: 0 }
    }

    /// Takes the result of an attempt. A success or a failure that no attempt
    /// mends ends the request, and so does the last attempt's failure.
    pub fn on_result(&mut self, result: Result<(), WavelogError>) -> (step: RetryStep)
        requires
            old(self).wf(),
        ensures
            if is_final(old(self).spec_attempt(), result_view(result)) {
                step == RetryStep::Done(result) && final(self).spec_attempt() == old(
                    self,
                ).spec_attempt()
            } else {
                &&& step matches RetryStep::Again(sleep)
                &&& sleep.wf()
                &&& sleep.total() == sleep_secs(old(self).spec_attempt() + 1) * 1_000_000_000
                &&& sleep.total() == (if old(self).spec_attempt() == 0 {
                    1_000_000_000
                } else {
                    4_000_000_000int
                })
                &&& final(self).wf()
                &&& final(self).spec_attempt() == old(self).spec_attempt() + 1
            },
    {
        let again = match &result {
            Ok(_) => false,
            Err(e) => is_retryable(e) && self.attempt + 1 < ATTEMPTS,
        };
        if !again {
            return RetryStep::Done(result);
        }
        self.attempt = self.attempt + 1;
        let sleep = if self.attempt == 1 {
            Duration::from_secs(1)
        } else {
            Duration::from_secs(4)
        };
        RetryStep::Again(sleep)
    }
}

/// The outcome of attempts with these results, from attempt `i` on; `None`
/// while the results do not decide it.
pub open spec fn outcome_from(results: Seq<Result<(), WavelogErrorView>>, i: int) -> Option<
    Result<(), WavelogErrorView>,
>
    decreases results.len() - i,
{
    if i < 0 || i >= results.len() {
        None
    } else if is_final(i, results[i]) {
        Some(results[i])
    } else {
        outcome_from(results, i + 1)
    }
}

/// Three results always decide: the first success or the first failure that no
/// attempt mends, else the third failure. No request is sent a fourth time.
pub proof fn three_attempts_decide(results: Seq<Result<(), WavelogErrorView>>)
    requires
        results.len() == 3,
    ensures
        outcome_from(results, 0) == Some(
            if results[0] is Ok || !retryable(results[0]->Err_0) {
                results[0]
            } else if results[1] is Ok || !retryable(results[1]->Err_0) {
                results[1]
            } else {
                results[2]
            },
        ),
{
    reveal_with_fuel(outcome_from, 4);
}

/// A rejected submission is final: it is not sent again.
pub proof fn rejection_is_final(results: Seq<Result<(), WavelogErrorView>>, i: int)
    requires
        0 <= i < results.len(),
        results[i] matches Err(e) && e is Rejected,
    ensures
        outcome_from(results, i) == Some(results[i]),
{
}

} // verus!
