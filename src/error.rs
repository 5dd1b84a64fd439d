use vstd::prelude::*;

verus! {

/// Class of a failure, fixed where the error is made.
#[derive(Debug, Clone, Copy, PartialEq, Eq, Structural)]
pub enum ErrorKind {
    /// The request breaks a static bound; never retried.
    Validation,
    /// Identity missing or malformed.
    Auth,
    /// The relational store failed.
    Durable,
    /// The coordination store failed.
    Coordination,
    /// The verifier failed or timed out.
    External,
    /// Lock contention beyond the wait budget.
    Concurrency,
    /// An invariant was found broken at run time.
    Internal,
}

/// An error with its class and the stage that raised it.
#[derive(Debug, Clone)]
pub struct CoreError {
    pub kind: ErrorKind,
    pub stage: String,
}

/// Errors of loading the remote configuration.
#[derive(Debug, Clone)]
pub enum NacosConfigError {
    UnsupportedEnvironment(String),
    BuildConfigService(String),
    FetchConfig(String),
    ParseConfig(String),
}

pub open spec fn retriable(kind: ErrorKind) -> bool {
    kind == ErrorKind::Durable || kind == ErrorKind::Coordination || kind == ErrorKind::External
        || kind == ErrorKind::Concurrency
}

impl ErrorKind {
    /// Whether a failure of this class may succeed when tried again.
    pub fn is_retriable(&self) -> (r: bool)
        ensures
            r == retriable(*self),
    {
        match self {
            ErrorKind::Durable | ErrorKind::Coordination | ErrorKind::External | ErrorKind::Concurrency => true,
            _ => false,
        }
    }

    /// HTTP status that reports this class to a client.
    pub fn http_status(&self) -> (r: u16)
        ensures
            *self == ErrorKind::Validation ==> r == 400,
            *self == ErrorKind::Auth ==> r == 401,
            *self != ErrorKind::Validation && *self != ErrorKind::Auth ==> r == 500,
    {
        match self {
            ErrorKind::Validation => 400,
            ErrorKind::Auth => 401,
            _ => 500,
        }
    }
}

/// What a worker does with a paper whose verification failed.
#[derive(Debug, Clone, Copy, PartialEq, Eq, Structural)]
pub enum FailureAction {
    /// Put the paper back at the head of the pending papers.
    Requeue,
    /// Count the paper as failed.
    MarkFailed,
    /// Drop the user's whole state, to break a poison loop.
    HardFinish,
}

pub open spec fn failure_action_spec(kind: ErrorKind, attempts: u32, max_attempts: u32) -> FailureAction {
    if kind == ErrorKind::Internal {
        FailureAction::HardFinish
    } else if retriable(kind) && attempts < max_attempts {
        FailureAction::Requeue
    } else {
        FailureAction::MarkFailed
    }
}

/// Chooses what to do after the `attempts`-th failed attempt on a paper:
/// an invariant violation drops the user, a retriable failure under the
/// attempt cap puts the paper back, anything else counts it as failed.
pub fn failure_action(kind: ErrorKind, attempts: u32, max_attempts: u32) -> (r: FailureAction)
    ensures
        r == failure_action_spec(kind, attempts, max_attempts),
{
    if kind == ErrorKind::Internal {
        FailureAction::HardFinish
    } else if kind.is_retriable() && attempts < max_attempts {
        FailureAction::Requeue
    } else {
        FailureAction::MarkFailed
    }
}

} // verus!
