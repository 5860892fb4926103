use std::time::{Duration, Instant};

use haidomo::interval::Interval;
use haidomo::stopwatch::{StopSplit, Stopwatch};

/// Spin (no sleeping) until roughly `d` has passed on the host clock.
fn busy_wait(d: Duration) {
    let t0 = Instant::now();
    while t0.elapsed() < d {
        std::hint::black_box(0);
    }
}

fn millis(iv: Interval) -> u128 {
    iv.secs as u128 * 1_000 + (iv.nanos / 1_000_000) as u128
}

#[test]
fn stopwatch_measures_a_real_delay() {
    let mut sw = Stopwatch::new();
    sw.clear();
    sw.start();
    busy_wait(Duration::from_millis(60));
    let total = sw.pause();
    let elapsed = sw.time_elapsed();
    // Within clock resolution: at least the waited time, and well under a
    // generous ceiling for a busy loop plus scheduling noise.
    assert!(millis(total) >= 60, "measured only {} ms", millis(total));
    assert!(millis(total) < 10_000, "measured an implausible {} ms", millis(total));
    assert_eq!(elapsed, total);
}

#[test]
fn pause_twice_returns_the_same_total() {
    let mut sw = Stopwatch::new();
    sw.start();
    busy_wait(Duration::from_millis(10));
    let first = sw.pause();
    let second = sw.pause();
    assert_eq!(first, second);
    assert!(!sw.is_running());
}

#[test]
fn new_stopwatch_is_idle_at_zero() {
    let sw = Stopwatch::new();
    assert!(!sw.is_running());
    assert_eq!(sw.time_elapsed(), Interval { secs: 0, nanos: 0 });
}

#[test]
fn start_new_is_running() {
    let sw = Stopwatch::start_new();
    assert!(sw.is_running());
}

#[test]
fn toggle_flips_the_running_state() {
    let mut sw = Stopwatch::new();
    assert!(sw.toggle());
    assert!(sw.is_running());
    assert!(!sw.toggle());
    assert!(!sw.is_running());
}

#[test]
fn clear_discards_accumulated_time() {
    let mut sw = Stopwatch::new();
    sw.start();
    busy_wait(Duration::from_millis(5));
    sw.pause();
    sw.clear();
    assert!(!sw.is_running());
    assert_eq!(sw.time_elapsed(), Interval { secs: 0, nanos: 0 });
}

#[test]
fn update_start_time_keeps_the_total_while_running() {
    let mut sw = Stopwatch::new();
    sw.start();
    busy_wait(Duration::from_millis(10));
    let split_total = sw.update_start_time();
    assert!(sw.is_running());
    assert!(millis(split_total) >= 10);
    // Idle, the call changes nothing and reports the accumulated total.
    let total = sw.pause();
    let report = sw.update_start_time();
    assert!(!sw.is_running());
    assert!(millis(report) >= millis(total));
}

#[test]
fn timestamp_carries_the_total() {
    let mut sw = Stopwatch::new();
    sw.start();
    busy_wait(Duration::from_millis(5));
    sw.pause();
    let t = sw.timestamp();
    let iv = sw.time_elapsed();
    assert_eq!(t.seconds, iv.secs);
    assert_eq!(t.subsecs, iv.nanos);
}

// --- split timer ---

#[test]
fn split_started_at_zero_freezes_at_the_stop_total() {
    let mut split = StopSplit::new();
    split.start_at_zero();
    let t = Interval { secs: 3, nanos: 500_000_000 };
    split.stop(t);
    assert!(split.is_done());
    // Once completed the reported time ignores the reference entirely...
    assert_eq!(split.time_elapsed(Interval { secs: 0, nanos: 0 }), t);
    assert_eq!(split.time_elapsed(Interval { secs: 99, nanos: 0 }), t);
    // ...and further stops change nothing.
    split.stop(Interval { secs: 77, nanos: 0 });
    assert_eq!(split.time_elapsed(Interval { secs: 12, nanos: 0 }), t);
}

#[test]
fn unstarted_split_reports_zero() {
    let split = StopSplit::new();
    assert!(split.not_started());
    assert!(!split.is_done());
    assert_eq!(
        split.time_elapsed(Interval { secs: 5, nanos: 0 }),
        Interval { secs: 0, nanos: 0 }
    );
}

#[test]
fn live_split_reports_the_distance_from_its_start() {
    let mut split = StopSplit::new();
    split.start(Interval { secs: 2, nanos: 250_000_000 });
    let r = split.time_elapsed(Interval { secs: 5, nanos: 750_000_000 });
    assert_eq!(r, Interval { secs: 3, nanos: 500_000_000 });
    // Starting again is a no-op.
    split.start(Interval { secs: 4, nanos: 0 });
    let r = split.time_elapsed(Interval { secs: 5, nanos: 750_000_000 });
    assert_eq!(r, Interval { secs: 3, nanos: 500_000_000 });
}

#[test]
fn resume_unfreezes_a_completed_split() {
    let mut split = StopSplit::new();
    split.start_at_zero();
    split.stop(Interval { secs: 1, nanos: 0 });
    assert!(split.is_done());
    split.resume();
    assert!(!split.is_done());
    // Live again: reported against the reference, not the frozen value.
    let r = split.time_elapsed(Interval { secs: 4, nanos: 0 });
    assert_eq!(r, Interval { secs: 4, nanos: 0 });
}

#[test]
fn toggle_split_cycles_through_the_states() {
    let mut split = StopSplit::new();
    // Unstarted -> started.
    split.toggle_split(Interval { secs: 1, nanos: 0 });
    assert!(!split.not_started());
    assert!(!split.is_done());
    // Started -> completed.
    split.toggle_split(Interval { secs: 3, nanos: 0 });
    assert!(split.is_done());
    assert_eq!(
        split.time_elapsed(Interval { secs: 0, nanos: 0 }),
        Interval { secs: 2, nanos: 0 }
    );
    // Completed -> live again.
    split.toggle_split(Interval { secs: 9, nanos: 0 });
    assert!(!split.is_done());
}

#[test]
fn clear_returns_a_split_to_unstarted() {
    let mut split = StopSplit::new();
    split.start_at_zero();
    split.stop(Interval { secs: 1, nanos: 0 });
    split.clear();
    assert!(split.not_started());
    assert!(!split.is_done());
    assert_eq!(
        split.time_elapsed(Interval { secs: 8, nanos: 0 }),
        Interval { secs: 0, nanos: 0 }
    );
}

#[test]
fn new_started_split_tracks_the_stopwatch() {
    let sw = Stopwatch::new();
    let split = StopSplit::new_started(&sw);
    // An idle stopwatch reads exactly its accumulated total, here zero.
    assert!(!split.not_started());
    assert_eq!(
        split.time_elapsed(Interval { secs: 1, nanos: 0 }),
        Interval { secs: 1, nanos: 0 }
    );
}
