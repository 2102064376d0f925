use ethotimer::{Clock, TimerStorage};

#[test]
fn new_timer_is_idle_and_zero() {
    let t = TimerStorage::new();
    assert!(!t.is_active());
    assert_eq!(t.total_elapsed_at(12345), 0);
    let d = TimerStorage::default();
    assert!(!d.is_active());
}

#[test]
fn second_start_is_ignored() {
    let mut t = TimerStorage::new();
    assert!(t.start_at(1000));
    assert!(!t.start_at(4000));
    assert_eq!(t.total_elapsed_at(6000), 5000);
    t.stop_at(6000);
    assert_eq!(t.total_elapsed_at(9000), 5000);
}

#[test]
fn elapsed_grows_while_running_and_holds_while_stopped() {
    let mut t = TimerStorage::new();
    t.start_at(0);
    let mut last = 0;
    for now in [0u64, 1, 10, 999, 1000, 50_000] {
        let e = t.total_elapsed_at(now);
        assert!(e >= last);
        last = e;
    }
    t.stop_at(50_000);
    assert_eq!(t.total_elapsed_at(50_000), 50_000);
    assert_eq!(t.total_elapsed_at(90_000), 50_000);
}

#[test]
fn stop_when_idle_changes_nothing() {
    let mut t = TimerStorage::new();
    t.stop_at(700);
    assert_eq!(t.total_elapsed_at(900), 0);
    assert!(!t.is_active());
}

#[test]
fn runs_accumulate() {
    let mut t = TimerStorage::new();
    t.start_at(100);
    t.stop_at(350);
    t.start_at(1000);
    t.stop_at(1100);
    assert_eq!(t.total_elapsed_at(5000), 350);
}

#[test]
fn clear_drops_a_run_in_progress() {
    let mut t = TimerStorage::new();
    t.start_at(0);
    t.stop_at(40);
    t.start_at(50);
    t.clear();
    assert!(!t.is_active());
    assert_eq!(t.total_elapsed_at(1000), 0);
}

#[test]
fn earlier_reading_counts_no_live_time() {
    let mut t = TimerStorage::new();
    t.start_at(5000);
    assert_eq!(t.total_elapsed_at(1000), 0);
}

#[test]
fn elapsed_saturates() {
    let mut t = TimerStorage::new();
    t.start_at(0);
    t.stop_at(u64::MAX);
    t.start_at(0);
    assert_eq!(t.total_elapsed_at(10), u64::MAX);
}

#[test]
fn clock_driven_timer() {
    let clock = Clock::new();
    let a = clock.now_millis();
    let b = clock.now_millis();
    assert!(b >= a);
    let mut t = TimerStorage::new();
    assert!(t.start(&clock));
    assert!(t.is_active());
    assert!(!t.start(&clock));
    t.stop(&clock);
    assert!(!t.is_active());
    let e = t.total_elapsed(&clock);
    assert_eq!(t.total_elapsed(&clock), e);
}

#[test]
fn running_timer_grows_by_the_time_passed() {
    let mut t = TimerStorage::new();
    t.start_at(100);
    t.stop_at(400);
    t.start_at(1000);
    let r1 = t.total_elapsed_at(2000);
    let r2 = t.total_elapsed_at(3250);
    assert_eq!(r1, 1300);
    assert_eq!(r2 - r1, 1250);
}
