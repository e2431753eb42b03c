use std::sync::{Arc, Mutex};

use atomr::time::{Clock, LogicalTime, ManualClock, SystemClock};

#[test]
fn manual_clock_is_monotonic() {
    let mut c = ManualClock::new();
    assert_eq!(c.watermark(), LogicalTime::zero());
    c.advance_to(LogicalTime::from_millis(100));
    assert_eq!(c.now(), LogicalTime::from_millis(100));
    c.advance_to(LogicalTime::from_millis(50));
    assert_eq!(c.now(), LogicalTime::from_millis(100));
    c.advance_by(LogicalTime::from_millis(25));
    assert_eq!(c.now(), LogicalTime::from_millis(125));
}

#[test]
fn clones_share_watermark() {
    let a = Arc::new(Mutex::new(ManualClock::new()));
    let b = a.clone();
    a.lock().unwrap().advance_to(LogicalTime::from_nanos(42));
    assert_eq!(b.lock().unwrap().now(), LogicalTime::from_nanos(42));
}

#[test]
fn system_clock_advances() {
    let c = SystemClock;
    let t1 = c.now();
    assert!(t1.as_nanos() > 0);
}

#[test]
fn arc_dyn_clock_dispatches() {
    let c: Arc<dyn Clock> = Arc::new(ManualClock::at(LogicalTime::from_nanos(7)));
    assert_eq!(c.now(), LogicalTime::from_nanos(7));
}

#[test]
fn advancing_past_the_end_stays_at_the_end() {
    let mut c = ManualClock::at(LogicalTime::from_nanos(u64::MAX - 1));
    c.advance_by(LogicalTime::from_nanos(5));
    assert_eq!(c.watermark(), LogicalTime::from_nanos(u64::MAX));
    assert_eq!(LogicalTime::from_millis(u64::MAX), LogicalTime::from_nanos(u64::MAX));
}
