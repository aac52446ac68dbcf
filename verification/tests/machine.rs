use samp_cmd_helper::plugin::{swallow_message, Plugin, TickAction, SETTLE_DELAY_MS, WM_LBUTTONDOWN};
use samp_cmd_helper::samp;

fn fresh() -> Plugin {
    Plugin::new(0x400000, samp::Version::V037R1)
}

#[test]
fn startup_waits_one_tick_then_installs() {
    let mut p = fresh();
    assert_eq!(p.tick(0), TickAction::Idle);
    assert_eq!(p.tick(16), TickAction::Install);
}

#[test]
fn aggregation_never_runs_before_the_settling_window() {
    let mut p = fresh();
    p.tick(0);
    assert_eq!(p.tick(1), TickAction::Install);
    // settling began at 1: nothing may aggregate through 1 + 3000
    assert_eq!(p.tick(2), TickAction::Idle);
    assert_eq!(p.tick(1500), TickAction::Idle);
    assert_eq!(p.tick(1 + SETTLE_DELAY_MS), TickAction::Idle);
}

#[test]
fn aggregation_runs_exactly_once_after_the_window() {
    let mut p = fresh();
    p.tick(0);
    p.tick(1000);
    assert_eq!(p.tick(1000 + SETTLE_DELAY_MS), TickAction::Idle);
    assert_eq!(p.tick(1001 + SETTLE_DELAY_MS), TickAction::Aggregate);
    // terminal: no further tick ever aggregates again
    assert_eq!(p.tick(1002 + SETTLE_DELAY_MS), TickAction::Idle);
    assert_eq!(p.tick(u64::MAX), TickAction::Idle);
}

#[test]
fn window_hook_swallows_only_wanted_left_clicks() {
    assert!(swallow_message(WM_LBUTTONDOWN, true));
    assert!(!swallow_message(WM_LBUTTONDOWN, false));
    assert!(!swallow_message(0x0202, true));
}

#[test]
fn clock_regression_does_not_trigger_aggregation() {
    let mut p = fresh();
    p.tick(0);
    p.tick(5000);
    assert_eq!(p.tick(10), TickAction::Idle);
}
