use particle_sim::tps_tracker::TpsTracker;
use std::time::{Duration, Instant};

const SECOND: u128 = 1_000_000_000;

#[test]
fn new_tracker_reports_zero() {
    let t = TpsTracker::new();
    assert_eq!(t.get(), 0);
    assert_eq!(t.counted(), 0);
}

#[test]
fn ticks_within_the_window_are_counted() {
    let mut t = TpsTracker::new();
    t.tick_at(0);
    t.tick_at(SECOND / 2);
    t.tick_at(SECOND);
    assert_eq!(t.counted(), 3);
    assert_eq!(t.get(), 0);
}

#[test]
fn first_tick_past_the_window_publishes_the_count() {
    let mut t = TpsTracker::new();
    for k in 0..5u128 {
        t.tick_at(k * SECOND / 5);
    }
    t.tick_at(SECOND + 1);
    assert_eq!(t.get(), 5);
    assert_eq!(t.counted(), 0);
}

#[test]
fn new_window_lasts_one_second_from_the_reset() {
    let mut t = TpsTracker::new();
    t.tick_at(SECOND + 1);
    assert_eq!(t.get(), 0);
    // the window now ends at 2 s + 1 ns
    t.tick_at(2 * SECOND);
    t.tick_at(2 * SECOND + 1);
    assert_eq!(t.counted(), 2);
    t.tick_at(2 * SECOND + 2);
    assert_eq!(t.get(), 2);
    assert_eq!(t.counted(), 0);
}

#[test]
fn tick_reads_the_clock() {
    let mut t = TpsTracker::new();
    t.tick();
    t.tick();
    assert_eq!(t.counted(), 2);
    assert_eq!(t.get(), 0);
    let start = Instant::now();
    while start.elapsed() < Duration::from_millis(1100) {}
    t.tick();
    assert_eq!(t.get(), 2);
    assert_eq!(t.counted(), 0);
}

#[test]
fn several_windows_publish_the_count_between_closing_ticks() {
    let mut t = TpsTracker::new();
    let ms = 1_000_000u128;
    for &at in &[100 * ms, 200 * ms, 300 * ms] {
        t.tick_at(at);
    }
    assert_eq!((t.counted(), t.get()), (3, 0));
    t.tick_at(1500 * ms); // closes the first window
    assert_eq!((t.counted(), t.get()), (0, 3));
    t.tick_at(1600 * ms);
    t.tick_at(2500 * ms); // exactly at the end: still counted
    assert_eq!((t.counted(), t.get()), (2, 3));
    t.tick_at(2500 * ms + 1); // closes the second window
    assert_eq!((t.counted(), t.get()), (0, 2));
    t.tick_at(3000 * ms);
    assert_eq!((t.counted(), t.get()), (1, 2));
}
