use netmon::admission::StoreModel;
use netmon::message::connect_request;
use netmon::monitor::{
    monitor_tick, tick_pause_secs, watchdog_expired, TICK_PAUSE_MAX_SECS, TICK_PAUSE_MIN_SECS,
    WATCHDOG_THRESHOLD_SECS,
};

#[test]
fn watchdog_fires_strictly_past_threshold() {
    // lag of exactly the threshold: no kill
    assert!(!watchdog_expired(100, 40, WATCHDOG_THRESHOLD_SECS));
    // one second past: kill
    assert!(watchdog_expired(101, 40, WATCHDOG_THRESHOLD_SECS));
    // fresh heartbeat, future heartbeat: no kill
    assert!(!watchdog_expired(100, 100, WATCHDOG_THRESHOLD_SECS));
    assert!(!watchdog_expired(100, 200, WATCHDOG_THRESHOLD_SECS));
}

#[test]
fn watchdog_handles_extreme_timestamps() {
    assert!(watchdog_expired(i64::MAX, i64::MIN, WATCHDOG_THRESHOLD_SECS));
    assert!(!watchdog_expired(i64::MIN, i64::MAX, WATCHDOG_THRESHOLD_SECS));
    // a missing heartbeat key reads as zero and counts as stale
    assert!(watchdog_expired(1000, 0, WATCHDOG_THRESHOLD_SECS));
}

#[test]
fn fresh_flags_fire_reset_once_then_clear() {
    // both flag keys absent: create-if-absent arms them, reset fires and
    // clears audit along with the rest of the state
    let mut store = StoreModel::new_empty();
    let first = monitor_tick(&mut store, 11);
    assert!(first.fired_reset);
    assert!(!first.fired_audit);
    assert_eq!(store.heartbeat, 11);
    assert_eq!(store.reset, Some(false));
    assert_eq!(store.audit, Some(false));
    // the immediately following tick observes neither flag
    let second = monitor_tick(&mut store, 12);
    assert!(!second.fired_reset);
    assert!(!second.fired_audit);
    assert_eq!(store.heartbeat, 12);
}

#[test]
fn armed_audit_fires_once_when_reset_is_clear() {
    let mut store = StoreModel::new_empty();
    store.reset = Some(false);
    store.audit = None;
    let first = monitor_tick(&mut store, 5);
    assert!(!first.fired_reset);
    assert!(first.fired_audit);
    let second = monitor_tick(&mut store, 6);
    assert!(!second.fired_audit);
}

#[test]
fn rearmed_flags_fire_again() {
    let mut store = StoreModel::new_empty();
    monitor_tick(&mut store, 1);
    store.audit = Some(true);
    let out = monitor_tick(&mut store, 2);
    assert!(out.fired_audit);
    store.reset = Some(true);
    let out = monitor_tick(&mut store, 3);
    assert!(out.fired_reset);
}

#[test]
fn firing_reset_clears_client_state() {
    let mut store = StoreModel::new_empty();
    monitor_tick(&mut store, 1);
    store.apply_connect(&connect_request("abc", "xyz", 2));
    assert!(store.has_client("abc"));
    store.reset = Some(true);
    let out = monitor_tick(&mut store, 3);
    assert!(out.fired_reset);
    assert!(!store.has_client("abc"));
    assert!(store.grant_of("abc").is_none());
    assert_eq!(store.heartbeat, 3);
}

#[test]
fn tick_pause_stays_in_bounds() {
    for _ in 0..100 {
        let s = tick_pause_secs();
        assert!(TICK_PAUSE_MIN_SECS <= s && s < TICK_PAUSE_MAX_SECS);
    }
}
