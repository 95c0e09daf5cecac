use vstd::prelude::*;

verus! {

/// The phases a server instance passes through.
#[derive(Clone, Copy, Debug, PartialEq, Eq, Structural)]
pub enum Phase {
    /// Constructed, routes may still be registered.
    Idle,
    /// Activated: deciding what to do about a stale socket file.
    PreflightCheck,
    /// Bound and accepting connections.
    Listening,
    /// Cancellation observed: tearing down.
    ShuttingDown,
    /// The activation call has returned.
    Stopped,
}

/// What the runtime observes at a suspension point and reports to the
/// lifecycle: activation, the preflight race, bind results, the accept
/// loop's outcomes, and teardown.
#[derive(Clone, Copy, Debug, PartialEq, Eq, Structural)]
pub enum Event {
    /// Activation with no file at the socket path.
    ActivateOnFreePath,
    /// Activation with a file already at the socket path.
    ActivateOnExistingPath,
    /// The fixed preflight delay elapsed before any cancellation.
    DelayElapsed,
    /// The cancellation signal was observed.
    Cancelled,
    /// The listener bound to the path.
    BindSucceeded,
    /// The listener could not bind.
    BindFailed,
    /// The accept call yielded a connection.
    ConnectionAccepted,
    /// The accept call failed: transient, never fatal.
    AcceptFailed,
    /// Teardown finished, whether or not the file removal succeeded.
    CleanupDone,
}

/// What the runtime must do next. Every action is the whole of the side
/// effect: the losing branch of any race performs nothing.
#[derive(Clone, Copy, Debug, PartialEq, Eq, Structural)]
pub enum Action {
    /// Bind the listener at the socket path.
    Bind,
    /// Emit the override prompt, then race the fixed delay against
    /// cancellation.
    PromptAndRace,
    /// Remove the stale socket file, log it, then bind.
    RemoveStaleAndBind,
    /// Wait for the next connection, racing against cancellation.
    Accept,
    /// Hand the accepted connection to an independent handler task, then
    /// accept again.
    SpawnHandler,
    /// Log the accept error and accept again.
    LogAndContinue,
    /// Remove the socket file if so configured (best effort), log shutdown.
    Cleanup,
    /// Return the user-abort failure: the stale file is left untouched and
    /// no listener was ever created.
    FailAborted,
    /// Propagate the bind failure to the caller; no retry.
    FailBind,
    /// Return success from the activation call.
    Finish,
    /// The event does not concern this phase: do nothing.
    Ignore,
}

/// The transition relation of the lifecycle: from a phase and an observed
/// event to the next phase and the action owed.
pub open spec fn spec_step(phase: Phase, event: Event) -> (Phase, Action) {
    match (phase, event) {
        (Phase::Idle, Event::ActivateOnFreePath) => (Phase::PreflightCheck, Action::Bind),
        (Phase::Idle, Event::ActivateOnExistingPath) => (
            Phase::PreflightCheck,
            Action::PromptAndRace,
        ),
        (Phase::PreflightCheck, Event::DelayElapsed) => (
            Phase::PreflightCheck,
            Action::RemoveStaleAndBind,
        ),
        (Phase::PreflightCheck, Event::Cancelled) => (Phase::Stopped, Action::FailAborted),
        (Phase::PreflightCheck, Event::BindSucceeded) => (Phase::Listening, Action::Accept),
        (Phase::PreflightCheck, Event::BindFailed) => (Phase::Stopped, Action::FailBind),
        (Phase::Listening, Event::ConnectionAccepted) => (Phase::Listening, Action::SpawnHandler),
        (Phase::Listening, Event::AcceptFailed) => (Phase::Listening, Action::LogAndContinue),
        (Phase::Listening, Event::Cancelled) => (Phase::ShuttingDown, Action::Cleanup),
        (Phase::ShuttingDown, Event::CleanupDone) => (Phase::Stopped, Action::Finish),
        _ => (phase, Action::Ignore),
    }
}

/// One lifecycle step: exactly the transition relation.
pub fn step(phase: Phase, event: Event) -> (r: (Phase, Action))
    ensures
        r == spec_step(phase, event),
{
    match (phase, event) {
        (Phase::Idle, Event::ActivateOnFreePath) => (Phase::PreflightCheck, Action::Bind),
        (Phase::Idle, Event::ActivateOnExistingPath) => (
            Phase::PreflightCheck,
            Action::PromptAndRace,
        ),
        (Phase::PreflightCheck, Event::DelayElapsed) => (
            Phase::PreflightCheck,
            Action::RemoveStaleAndBind,
        ),
        (Phase::PreflightCheck, Event::Cancelled) => (Phase::Stopped, Action::FailAborted),
        (Phase::PreflightCheck, Event::BindSucceeded) => (Phase::Listening, Action::Accept),
        (Phase::PreflightCheck, Event::BindFailed) => (Phase::Stopped, Action::FailBind),
        (Phase::Listening, Event::ConnectionAccepted) => (Phase::Listening, Action::SpawnHandler),
        (Phase::Listening, Event::AcceptFailed) => (Phase::Listening, Action::LogAndContinue),
        (Phase::Listening, Event::Cancelled) => (Phase::ShuttingDown, Action::Cleanup),
        (Phase::ShuttingDown, Event::CleanupDone) => (Phase::Stopped, Action::Finish),
        (p, _) => (p, Action::Ignore),
    }
}

/// The preflight race, settled: cancellation first means the activation
/// fails as aborted, the stale file is never touched and nothing binds;
/// the delay first means the stale file is removed and the bind proceeds.
/// Only the delay ever leads to removing the file.
pub proof fn lemma_preflight_race()
    ensures
        spec_step(Phase::PreflightCheck, Event::Cancelled) == (
            Phase::Stopped,
            Action::FailAborted,
        ),
        spec_step(Phase::PreflightCheck, Event::DelayElapsed) == (
            Phase::PreflightCheck,
            Action::RemoveStaleAndBind,
        ),
        forall|p: Phase, e: Event|
            #[trigger] spec_step(p, e).1 == Action::RemoveStaleAndBind ==> p
                == Phase::PreflightCheck && e == Event::DelayElapsed,
        forall|e: Event|
            spec_step(Phase::Stopped, e).0 == Phase::Stopped && #[trigger] spec_step(
                Phase::Stopped,
                e,
            ).1 == Action::Ignore,
{
}

/// Accept errors are transient: the loop logs and goes on listening; only
/// cancellation leaves the listening phase.
pub proof fn lemma_accept_loop_continues()
    ensures
        spec_step(Phase::Listening, Event::AcceptFailed) == (
            Phase::Listening,
            Action::LogAndContinue,
        ),
        spec_step(Phase::Listening, Event::ConnectionAccepted) == (
            Phase::Listening,
            Action::SpawnHandler,
        ),
        forall|e: Event|
            #[trigger] spec_step(Phase::Listening, e).0 != Phase::Listening ==> e
                == Event::Cancelled,
{
}

} // verus!
