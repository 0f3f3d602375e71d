//! Tests for the event-orchestration decision logic: the device-event
//! debouncer, the shutdown coordinator, the config hot-reload bridge and
//! the startup uptime gate.

use lact_daemon::debounce::{debounce_step, DebounceAction, DebounceEvent, DebouncerState};
use lact_daemon::reload::{hot_reload_step, reload_outcome, ReloadOutcome};
use lact_daemon::shutdown::{shutdown_step, ShutdownAction, ShutdownState, SignalKind};
use lact_daemon::uptime::{parse_uptime_ms, startup_delay_ms, MIN_SYSTEM_UPTIME_MS, UPTIME_MS_CAP};

fn run_debouncer_counting(events: &[DebounceEvent]) -> (DebouncerState, usize) {
    let mut state = DebouncerState::Idle;
    let mut reloads: usize = 0;
    for &event in events {
        let (next, action) = debounce_step(state, event);
        if action == DebounceAction::ReloadGpus {
            reloads += 1;
        }
        state = next;
    }
    (state, reloads)
}

#[test]
fn debounce_coalesces_burst_into_one_reload() {
    let events = [
        DebounceEvent::Notification,
        DebounceEvent::Notification,
        DebounceEvent::Notification,
        DebounceEvent::Notification,
        DebounceEvent::QuietElapsed,
    ];
    let (state, reloads) = run_debouncer_counting(&events);
    assert_eq!(reloads, 1);
    assert_eq!(state, DebouncerState::Idle);
}

#[test]
fn debounce_without_quiet_gap_never_reloads() {
    let events = [DebounceEvent::Notification; 10];
    let (state, reloads) = run_debouncer_counting(&events);
    assert_eq!(reloads, 0);
    assert_eq!(state, DebouncerState::Debouncing);
}

#[test]
fn debounce_two_separated_bursts_reload_twice() {
    let events = [
        DebounceEvent::Notification,
        DebounceEvent::QuietElapsed,
        DebounceEvent::Notification,
        DebounceEvent::Notification,
        DebounceEvent::QuietElapsed,
    ];
    let (state, reloads) = run_debouncer_counting(&events);
    assert_eq!(reloads, 2);
    assert_eq!(state, DebouncerState::Idle);
}

#[test]
fn shutdown_runs_cleanup_exactly_once() {
    let (after_first, first_action) = shutdown_step(ShutdownState::Running, SignalKind::Terminate);
    assert_eq!(first_action, ShutdownAction::RunCleanupAndExit);
    assert_eq!(after_first, ShutdownState::Terminated);

    let (after_second, second_action) = shutdown_step(after_first, SignalKind::Interrupt);
    assert_eq!(second_action, ShutdownAction::Ignore);
    assert_eq!(after_second, ShutdownState::Terminated);
}

#[test]
fn shutdown_treats_all_signals_alike() {
    for signal in [
        SignalKind::Terminate,
        SignalKind::Interrupt,
        SignalKind::Quit,
        SignalKind::Hangup,
    ] {
        let (next, action) = shutdown_step(ShutdownState::Running, signal);
        assert_eq!(action, ShutdownAction::RunCleanupAndExit);
        assert_eq!(next, ShutdownState::Terminated);
    }
}

#[test]
fn hot_reload_applies_new_config() {
    let mut shared = String::from("old");
    hot_reload_step(&mut shared, String::from("new"));
    assert_eq!(shared, "new");
    assert_eq!(reload_outcome(true), ReloadOutcome::Applied);
}

#[test]
fn hot_reload_keeps_new_config_on_apply_failure() {
    let mut shared = String::from("old");
    hot_reload_step(&mut shared, String::from("new"));
    assert_eq!(reload_outcome(false), ReloadOutcome::ApplyFailedConfigRetained);
    assert_eq!(shared, "new");
}

#[test]
fn parse_uptime_reads_first_token() {
    assert_eq!(parse_uptime_ms(b"123.45 678.90\n"), Some(123_450));
    assert_eq!(parse_uptime_ms(b"  7\n"), Some(7_000));
    assert_eq!(parse_uptime_ms(b"5."), Some(5_000));
    assert_eq!(parse_uptime_ms(b"0.6789"), Some(678));
    assert_eq!(parse_uptime_ms(b"0.5 1.0"), Some(500));
}

#[test]
fn parse_uptime_rejects_malformed_content() {
    assert_eq!(parse_uptime_ms(b""), None);
    assert_eq!(parse_uptime_ms(b"   \n"), None);
    assert_eq!(parse_uptime_ms(b"abc 1.0"), None);
    assert_eq!(parse_uptime_ms(b"."), None);
    assert_eq!(parse_uptime_ms(b"1.2.3"), None);
    assert_eq!(parse_uptime_ms(b"12a.5"), None);
}

#[test]
fn parse_uptime_caps_enormous_values() {
    assert_eq!(
        parse_uptime_ms(b"99999999999999999999.5"),
        Some(UPTIME_MS_CAP)
    );
}

#[test]
fn startup_gate_waits_out_the_minimum_uptime() {
    assert_eq!(startup_delay_ms(Some(3_000)), MIN_SYSTEM_UPTIME_MS - 3_000);
    assert_eq!(startup_delay_ms(Some(0)), MIN_SYSTEM_UPTIME_MS);
    assert_eq!(startup_delay_ms(Some(MIN_SYSTEM_UPTIME_MS)), 0);
    assert_eq!(startup_delay_ms(Some(20_000)), 0);
    assert_eq!(startup_delay_ms(None), 0);
}
