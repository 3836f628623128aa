//! How one execution of the target ended, and the objective oracle that
//! decides whether the executed input is a finding.

use libafl::feedbacks::CrashFeedback;
use libafl::feedbacks::Feedback;
use libafl::feedbacks::TimeoutFeedback;
use vstd::prelude::*;

verus! {

/// The way one execution of the target ended.
#[derive(Clone, Copy, Debug, PartialEq, Eq, Structural)]
pub enum ExitKind {
    /// The target returned normally.
    Normal,
    /// The target crashed.
    Crash,
    /// The target ran past its deadline and was aborted.
    Timeout,
}

/// Why an input was recorded as a finding.
#[derive(Clone, Copy, Debug, PartialEq, Eq, Structural)]
pub enum FindingReason {
    /// The target crashed on the input.
    Crashed,
    /// The target did not return within its deadline.
    TimedOut,
}

impl ExitKind {
    /// Whether this outcome marks the executed input as a finding.
    pub open spec fn is_finding(self) -> bool {
        self == ExitKind::Crash || self == ExitKind::Timeout
    }

    /// The reason recorded with a finding; none for a normal return.
    pub open spec fn reason(self) -> Option<FindingReason> {
        match self {
            ExitKind::Normal => None,
            ExitKind::Crash => Some(FindingReason::Crashed),
            ExitKind::Timeout => Some(FindingReason::TimedOut),
        }
    }
}

/// `CrashFeedback::is_interesting` of `libafl`, which looks at the exit kind
/// alone: it reports exactly the crashes.
#[verifier::external_body]
fn crash_feedback_fires(kind: ExitKind) -> (hit: bool)
    ensures
        hit == (kind == ExitKind::Crash),
{
    let outside = match kind {
        ExitKind::Normal => libafl::executors::ExitKind::Ok,
        ExitKind::Crash => libafl::executors::ExitKind::Crash,
        ExitKind::Timeout => libafl::executors::ExitKind::Timeout,
    };
    let mut feedback = CrashFeedback::new();
    let verdict = feedback.is_interesting(&mut (), &mut (), &(), &(), &outside);
    verdict.unwrap_or(false)
}

/// `TimeoutFeedback::is_interesting` of `libafl`, which looks at the exit kind
/// alone: it reports exactly the timeouts.
#[verifier::external_body]
fn timeout_feedback_fires(kind: ExitKind) -> (hit: bool)
    ensures
        hit == (kind == ExitKind::Timeout),
{
    let outside = match kind {
        ExitKind::Normal => libafl::executors::ExitKind::Ok,
        ExitKind::Crash => libafl::executors::ExitKind::Crash,
        ExitKind::Timeout => libafl::executors::ExitKind::Timeout,
    };
    let mut feedback = TimeoutFeedback::new();
    let verdict = feedback.is_interesting(&mut (), &mut (), &(), &(), &outside);
    verdict.unwrap_or(false)
}

/// The objective oracle: whether an execution that ended in `kind` is a
/// finding. The crash detector is asked first, the timeout detector only if
/// it did not fire. Classification only: nothing is changed.
pub fn is_solution(kind: ExitKind) -> (found: bool)
    ensures
        found == kind.is_finding(),
{
    crash_feedback_fires(kind) || timeout_feedback_fires(kind)
}

/// The reason to record with the input of an execution that ended in `kind`.
pub fn finding_reason(kind: ExitKind) -> (reason: Option<FindingReason>)
    ensures
        reason == kind.reason(),
        reason.is_some() == kind.is_finding(),
{
    if crash_feedback_fires(kind) {
        Some(FindingReason::Crashed)
    } else if timeout_feedback_fires(kind) {
        Some(FindingReason::TimedOut)
    } else {
        None
    }
}

} // verus!
