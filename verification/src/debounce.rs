//! The device-event debouncer's decision logic: a state machine that
//! coalesces bursts of kernel hardware-change notifications into a single
//! GPU reload.
//!
//! The surrounding task feeds it two kinds of events: a notification from
//! the kernel event source, and the expiry of the quiet-period wait with no
//! notification having arrived. A notification that arrives within the quiet
//! period therefore shows up as a `Notification` event before any
//! `QuietElapsed` event.

use vstd::prelude::*;

verus! {

/// The debouncer's state.
#[derive(Clone, Copy, PartialEq, Eq, Structural, Debug)]
pub enum DebouncerState {
    /// Suspended, waiting for a hardware-change notification.
    Idle,
    /// A notification arrived; waiting out the quiet period.
    Debouncing,
}

/// An event the debouncer reacts to.
#[derive(Clone, Copy, PartialEq, Eq, Structural, Debug)]
pub enum DebounceEvent {
    /// The kernel event source signalled a hardware change.
    Notification,
    /// The quiet period elapsed with no new notification.
    QuietElapsed,
}

/// What the surrounding task must do after a step.
#[derive(Clone, Copy, PartialEq, Eq, Structural, Debug)]
pub enum DebounceAction {
    /// (Re)start the quiet-period wait.
    ArmQuietWait,
    /// Trigger a full GPU reload through the handler.
    ReloadGpus,
    /// Nothing; keep waiting for a notification.
    Ignore,
}

/// One debouncer transition: the next state and the action owed for it.
pub open spec fn spec_debounce_step(state: DebouncerState, event: DebounceEvent) -> (
    DebouncerState,
    DebounceAction,
) {
    match (state, event) {
        (DebouncerState::Idle, DebounceEvent::Notification) => (
            DebouncerState::Debouncing,
            DebounceAction::ArmQuietWait,
        ),
        (DebouncerState::Idle, DebounceEvent::QuietElapsed) => (
            DebouncerState::Idle,
            DebounceAction::Ignore,
        ),
        (DebouncerState::Debouncing, DebounceEvent::Notification) => (
            DebouncerState::Debouncing,
            DebounceAction::ArmQuietWait,
        ),
        (DebouncerState::Debouncing, DebounceEvent::QuietElapsed) => (
            DebouncerState::Idle,
            DebounceAction::ReloadGpus,
        ),
    }
}

/// Advances the debouncer by one event.
pub fn debounce_step(state: DebouncerState, event: DebounceEvent) -> (r: (
    DebouncerState,
    DebounceAction,
))
    ensures
        r == spec_debounce_step(state, event),
{
    match (state, event) {
        (DebouncerState::Idle, DebounceEvent::Notification) => (
            DebouncerState::Debouncing,
            DebounceAction::ArmQuietWait,
        ),
        (DebouncerState::Idle, DebounceEvent::QuietElapsed) => (
            DebouncerState::Idle,
            DebounceAction::Ignore,
        ),
        (DebouncerState::Debouncing, DebounceEvent::Notification) => (
            DebouncerState::Debouncing,
            DebounceAction::ArmQuietWait,
        ),
        (DebouncerState::Debouncing, DebounceEvent::QuietElapsed) => (
            DebouncerState::Idle,
            DebounceAction::ReloadGpus,
        ),
    }
}

/// The state after consuming a sequence of events.
pub open spec fn run_debouncer(state: DebouncerState, events: Seq<DebounceEvent>) -> DebouncerState
    decreases events.len(),
{
    if events.len() == 0 {
        state
    } else {
        run_debouncer(spec_debounce_step(state, events[0]).0, events.skip(1))
    }
}

/// How many GPU reloads a sequence of events triggers from a given state.
pub open spec fn reload_count(state: DebouncerState, events: Seq<DebounceEvent>) -> int
    decreases events.len(),
{
    if events.len() == 0 {
        0
    } else {
        let (next, action) = spec_debounce_step(state, events[0]);
        (if action is ReloadGpus {
            1int
        } else {
            0int
        }) + reload_count(next, events.skip(1))
    }
}

/// Bursts alone never reload: without a quiet-period expiry there is no
/// reload, from any state.
pub proof fn lemma_no_elapse_no_reload(state: DebouncerState, events: Seq<DebounceEvent>)
    requires
        forall|i: int| 0 <= i < events.len() ==> events[i] is Notification,
    ensures
        reload_count(state, events) == 0,
    decreases events.len(),
{
    if events.len() > 0 {
        let tail = events.skip(1);
        assert(forall|i: int| 0 <= i < tail.len() ==> tail[i] == events[i + 1]);
        lemma_no_elapse_no_reload(spec_debounce_step(state, events[0]).0, tail);
    }
}

/// While debouncing, a run of notifications closed by one quiet-period
/// expiry triggers exactly one reload and returns the debouncer to idle.
proof fn lemma_debounce_from_debouncing(events: Seq<DebounceEvent>)
    requires
        events.len() >= 1,
        forall|i: int| 0 <= i < events.len() - 1 ==> events[i] is Notification,
        events[events.len() - 1] is QuietElapsed,
    ensures
        reload_count(DebouncerState::Debouncing, events) == 1,
        run_debouncer(DebouncerState::Debouncing, events) == DebouncerState::Idle,
    decreases events.len(),
{
    let tail = events.skip(1);
    assert(forall|i: int| 0 <= i < tail.len() ==> tail[i] == events[i + 1]);
    if events.len() == 1 {
        assert(reload_count(DebouncerState::Idle, tail) == 0);
        assert(run_debouncer(DebouncerState::Idle, tail) == DebouncerState::Idle);
    } else {
        lemma_debounce_from_debouncing(tail);
    }
}

/// Debounce coalescing: any number of notifications arriving before the
/// quiet period ever expires, followed by one quiet-period expiry, trigger
/// exactly one GPU reload, and the debouncer ends up idle again.
pub proof fn lemma_debounce_coalesces(events: Seq<DebounceEvent>)
    requires
        events.len() >= 2,
        forall|i: int| 0 <= i < events.len() - 1 ==> events[i] is Notification,
        events[events.len() - 1] is QuietElapsed,
    ensures
        reload_count(DebouncerState::Idle, events) == 1,
        run_debouncer(DebouncerState::Idle, events) == DebouncerState::Idle,
{
    let tail = events.skip(1);
    assert(forall|i: int| 0 <= i < tail.len() ==> tail[i] == events[i + 1]);
    lemma_debounce_from_debouncing(tail);
}

} // verus!
