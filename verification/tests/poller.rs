use wavelog_relay::binary32::Binary32;
use wavelog_relay::duration::Duration;
use wavelog_relay::poller::{
    on_poll, quantize_rfpower, Deduper, RadioWorker, TickAction, WorkerAction, HEARTBEAT_SECS,
};
use wavelog_relay::rigctld::{RigError, RigState};

fn f(x: f32) -> Binary32 {
    Binary32::from_bits(x.to_bits())
}

fn rig_state(freq: u64, mode: &str, power: f32) -> RigState {
    RigState {
        freq,
        mode: mode.into(),
        power: Some(f(power)),
    }
}

fn rig_state_no_power(freq: u64, mode: &str) -> RigState {
    RigState {
        freq,
        mode: mode.into(),
        power: None,
    }
}

/// Some point in time, and the point `millis` later.
const NOW: u64 = 1000;

fn later(millis: u64) -> Duration {
    Duration::from_millis(NOW * 1000 + millis)
}

#[test]
fn quantize_rfpower_rounds_to_half_percent_bins() {
    assert_eq!(quantize_rfpower(f(0.0)), 0);
    assert_eq!(quantize_rfpower(f(0.10)), 20);
    assert_eq!(quantize_rfpower(f(0.102)), 20);
    assert_eq!(quantize_rfpower(f(0.103)), 21);
    assert_eq!(quantize_rfpower(f(0.998)), 200);
    assert_eq!(quantize_rfpower(f(1.0)), 200);
}

#[test]
fn quantize_rfpower_of_odd_numbers() {
    assert_eq!(quantize_rfpower(f(f32::NAN)), 0);
    assert_eq!(quantize_rfpower(f(f32::INFINITY)), i32::MAX);
    assert_eq!(quantize_rfpower(f(f32::NEG_INFINITY)), i32::MIN);
    assert_eq!(quantize_rfpower(f(f32::MAX)), i32::MAX);
    assert_eq!(quantize_rfpower(f(-0.5)), -100);
}

#[test]
fn deduper_initial_state_never_skips() {
    let deduper = Deduper::default();
    assert!(!deduper.should_skip(&rig_state(14_074_000, "USB", 0.1), later(0)));
}

#[test]
fn deduper_skips_identical_state_within_heartbeat() {
    let mut deduper = Deduper::default();
    let state = rig_state(14_074_000, "USB", 0.1);
    deduper.record(&state, later(0));
    assert!(deduper.should_skip(&state, later(10_000)));
}

#[test]
fn deduper_re_pushes_after_heartbeat_interval() {
    let mut deduper = Deduper::default();
    let state = rig_state(14_074_000, "USB", 0.1);
    deduper.record(&state, later(0));
    assert!(!deduper.should_skip(&state, later(HEARTBEAT_SECS * 1000 + 1)));
}

#[test]
fn deduper_heartbeat_boundary() {
    let mut deduper = Deduper::default();
    let state = rig_state(14_074_000, "USB", 0.1);
    deduper.record(&state, later(0));
    assert!(deduper.should_skip(&state, later(29_999)));
    assert!(!deduper.should_skip(&state, later(30_000)));
    // A clock that went back counts as no time at all.
    assert!(deduper.should_skip(&state, Duration::from_secs(1)));
}

#[test]
fn deduper_breaks_on_freq_change() {
    let mut deduper = Deduper::default();
    deduper.record(&rig_state(14_074_000, "USB", 0.1), later(0));
    assert!(!deduper.should_skip(&rig_state(14_100_000, "USB", 0.1), later(0)));
}

#[test]
fn deduper_breaks_on_mode_change() {
    let mut deduper = Deduper::default();
    deduper.record(&rig_state(14_074_000, "USB", 0.1), later(0));
    assert!(!deduper.should_skip(&rig_state(14_074_000, "CW", 0.1), later(0)));
}

#[test]
fn deduper_breaks_on_quantized_power_change() {
    let mut deduper = Deduper::default();
    // 0.10 -> bin 20, 0.15 -> bin 30: crosses several bins.
    deduper.record(&rig_state(14_074_000, "USB", 0.10), later(0));
    assert!(!deduper.should_skip(&rig_state(14_074_000, "USB", 0.15), later(0)));
}

#[test]
fn deduper_collapses_subquantum_power_drift() {
    let mut deduper = Deduper::default();
    // 0.100 -> bin 20, 0.101 -> 20.2 -> bin 20: same bin, dedupes.
    deduper.record(&rig_state(14_074_000, "USB", 0.100), later(0));
    assert!(deduper.should_skip(&rig_state(14_074_000, "USB", 0.101), later(0)));
}

#[test]
fn deduper_treats_none_power_as_distinct_from_some() {
    let mut deduper = Deduper::default();
    deduper.record(&rig_state(14_074_000, "USB", 0.10), later(0));
    assert!(!deduper.should_skip(&rig_state_no_power(14_074_000, "USB"), later(0)));
}

#[test]
fn deduper_skips_repeated_none_power() {
    // Steady-state on a RFPOWER-less rig: still want dedupe.
    let mut deduper = Deduper::default();
    let state = rig_state_no_power(14_074_000, "USB");
    deduper.record(&state, later(0));
    assert!(deduper.should_skip(&state, later(10_000)));
}

#[test]
fn deduper_quantum_independent_of_power_max() {
    // 0.5 -> bin 100 regardless of rig.
    let state = rig_state(14_074_000, "USB", 0.5);
    let mut deduper = Deduper::default();
    deduper.record(&state, later(0));
    assert!(deduper.should_skip(&state, later(0)));
}

#[test]
fn poller_dedupes_repeated_state() {
    let mut worker = RadioWorker::new();
    let state = rig_state(14_074_000, "USB", 0.1);
    assert_eq!(worker.on_snapshot(Some(state.clone()), later(0)), WorkerAction::Push);
    assert_eq!(worker.state_in_flight().unwrap().freq, 14_074_000);
    assert_eq!(worker.on_pushed(true), WorkerAction::Wait);
    assert!(worker.state_in_flight().is_none());
    assert_eq!(worker.on_snapshot(Some(state.clone()), later(1000)), WorkerAction::Wait);
    assert_eq!(worker.on_snapshot(None, later(2000)), WorkerAction::Wait);
    assert_eq!(worker.on_snapshot(Some(state), later(31_000)), WorkerAction::Push);
}

#[test]
fn poller_re_pushes_after_failed_push() {
    let mut worker = RadioWorker::new();
    let state = rig_state(14_074_000, "USB", 0.1);
    assert_eq!(worker.on_snapshot(Some(state.clone()), later(0)), WorkerAction::Push);
    assert_eq!(worker.on_pushed(false), WorkerAction::Wait);
    assert_eq!(worker.on_snapshot(Some(state), later(1000)), WorkerAction::Push);
}

#[test]
fn rig_errors_do_not_kill_the_loop() {
    assert!(matches!(
        on_poll(Err(RigError::Disconnected)),
        TickAction::Report(RigError::Disconnected)
    ));
    match on_poll(Ok(rig_state(7_000_000, "LSB", 0.5))) {
        TickAction::Publish(state) => assert_eq!(state.freq, 7_000_000),
        TickAction::Report(_) => panic!("a snapshot is published"),
    }
}

#[test]
fn shutdown_during_inflight_post_returns_promptly() {
    let mut worker = RadioWorker::new();
    let state = rig_state(14_074_000, "USB", 0.1);
    assert_eq!(worker.on_snapshot(Some(state), later(0)), WorkerAction::Push);
    assert_eq!(worker.on_shutdown(false, true), WorkerAction::Stop);
}

#[test]
fn spurious_shutdown_change_gives_the_push_up_unremembered() {
    let mut worker = RadioWorker::new();
    let state = rig_state(14_074_000, "USB", 0.1);
    assert_eq!(worker.on_snapshot(Some(state.clone()), later(0)), WorkerAction::Push);
    assert_eq!(worker.on_shutdown(false, false), WorkerAction::Wait);
    assert!(worker.state_in_flight().is_none());
    assert_eq!(worker.on_snapshot(Some(state), later(1)), WorkerAction::Push);
    assert_eq!(worker.on_shutdown(true, false), WorkerAction::Stop);
    assert_eq!(worker.on_closed(), WorkerAction::Stop);
}
