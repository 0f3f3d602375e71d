//! The shutdown coordinator's decision logic: the first termination signal,
//! whatever its kind, triggers cleanup exactly once; later signals have no
//! further effect.

use vstd::prelude::*;

verus! {

/// The OS termination signals the daemon listens on, all treated alike.
#[derive(Clone, Copy, PartialEq, Eq, Structural, Debug)]
pub enum SignalKind {
    /// SIGTERM.
    Terminate,
    /// SIGINT.
    Interrupt,
    /// SIGQUIT.
    Quit,
    /// SIGHUP.
    Hangup,
}

/// The shutdown coordinator's state.
#[derive(Clone, Copy, PartialEq, Eq, Structural, Debug)]
pub enum ShutdownState {
    /// The daemon runs; no termination signal seen yet.
    Running,
    /// Cleanup has been ordered; the process is on its way out.
    Terminated,
}

/// What the surrounding task must do after a signal.
#[derive(Clone, Copy, PartialEq, Eq, Structural, Debug)]
pub enum ShutdownAction {
    /// Run handler cleanup, remove the control socket, exit successfully.
    RunCleanupAndExit,
    /// Nothing: shutdown is already under way.
    Ignore,
}

/// One coordinator transition. The action does not depend on which of the
/// four signal kinds arrived, only on whether one arrived before.
pub open spec fn spec_shutdown_step(state: ShutdownState, signal: SignalKind) -> (
    ShutdownState,
    ShutdownAction,
) {
    match state {
        ShutdownState::Running => (ShutdownState::Terminated, ShutdownAction::RunCleanupAndExit),
        ShutdownState::Terminated => (ShutdownState::Terminated, ShutdownAction::Ignore),
    }
}

/// Advances the coordinator by one received signal.
pub fn shutdown_step(state: ShutdownState, signal: SignalKind) -> (r: (
    ShutdownState,
    ShutdownAction,
))
    ensures
        r == spec_shutdown_step(state, signal),
{
    match state {
        ShutdownState::Running => (ShutdownState::Terminated, ShutdownAction::RunCleanupAndExit),
        ShutdownState::Terminated => (ShutdownState::Terminated, ShutdownAction::Ignore),
    }
}

/// How many cleanup runs a sequence of signals orders from a given state.
pub open spec fn cleanup_count(state: ShutdownState, signals: Seq<SignalKind>) -> int
    decreases signals.len(),
{
    if signals.len() == 0 {
        0
    } else {
        let (next, action) = spec_shutdown_step(state, signals[0]);
        (if action is RunCleanupAndExit {
            1int
        } else {
            0int
        }) + cleanup_count(next, signals.skip(1))
    }
}

/// Once shutdown is under way, no further signal orders another cleanup.
proof fn lemma_no_cleanup_after_termination(signals: Seq<SignalKind>)
    ensures
        cleanup_count(ShutdownState::Terminated, signals) == 0,
    decreases signals.len(),
{
    if signals.len() > 0 {
        lemma_no_cleanup_after_termination(signals.skip(1));
    }
}

/// Shutdown idempotence: any number of termination signals, of any kinds
/// and however quickly they follow one another, order cleanup exactly once.
pub proof fn lemma_shutdown_idempotent(signals: Seq<SignalKind>)
    requires
        signals.len() >= 1,
    ensures
        cleanup_count(ShutdownState::Running, signals) == 1,
{
    lemma_no_cleanup_after_termination(signals.skip(1));
}

} // verus!
