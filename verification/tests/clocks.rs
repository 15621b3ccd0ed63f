use hypercompute::clock::{moment, now, reported_millis, Timestamp, FIRST_SECOND, LAST_SECOND};
use hypercompute::job::MpiJobState;
use hypercompute::output::TaskOutput;
use hypercompute::state::AppState;
use std::time::{Duration, Instant, SystemTime, UNIX_EPOCH};

#[test]
fn the_clock_shows_the_present() {
    let wall = SystemTime::now().duration_since(UNIX_EPOCH).unwrap().as_secs() as i64;
    let t = now();
    assert!((t.secs - wall).abs() <= 5);
    assert!(t.nanos < 1_000_000_000);
}

#[test]
fn whole_seconds_are_taken_away() {
    let t = Timestamp { secs: 1_000, nanos: 5 };
    assert!(t.can_go_back(30));
    assert_eq!(t.earlier(30), Timestamp { secs: 970, nanos: 5 });
    assert_eq!(t.earlier(0), t);
    assert_eq!(t.earlier(2_000), Timestamp { secs: -1_000, nanos: 5 });
}

#[test]
fn a_timeout_is_read_as_a_signed_number() {
    let t = Timestamp { secs: 1_000, nanos: 5 };
    assert!(t.can_go_back(u64::MAX));
    assert_eq!(t.earlier(u64::MAX), Timestamp { secs: 1_001, nanos: 5 });
}

#[test]
fn the_ends_of_the_calendar_can_be_reached() {
    let t = Timestamp { secs: 0, nanos: 0 };
    let back = (-FIRST_SECOND) as u64;
    assert!(t.can_go_back(back));
    assert_eq!(t.earlier(back).secs, FIRST_SECOND);
    assert!(!t.can_go_back(back + 1));
    let end = Timestamp { secs: LAST_SECOND, nanos: 999_999_999 };
    assert_eq!(end.earlier(0), end);
    assert!(!Timestamp { secs: LAST_SECOND + 1, nanos: 0 }.can_go_back(0));
    assert!(!t.can_go_back(i64::MAX as u64));
}

#[test]
fn points_in_time_are_ordered() {
    let a = Timestamp { secs: 1, nanos: 5 };
    let b = Timestamp { secs: 1, nanos: 6 };
    let c = Timestamp { secs: 2, nanos: 0 };
    assert!(a.before(&b) && b.before(&c) && a.before(&c));
    assert!(!b.before(&a) && !a.before(&a));
}

#[test]
fn leap_seconds_stand_at_the_end_of_a_minute() {
    assert!(Timestamp { secs: 59, nanos: 1_500_000_000 }.can_be_shown());
    assert!(Timestamp { secs: -1, nanos: 1_500_000_000 }.can_be_shown());
    assert!(!Timestamp { secs: 58, nanos: 1_500_000_000 }.can_be_shown());
    assert!(!Timestamp { secs: 59, nanos: 2_000_000_000 }.can_be_shown());
}

#[test]
fn the_duration_of_a_job_is_measured() {
    let job = MpiJobState::new(1, 1);
    let start = Instant::now();
    while start.elapsed() < Duration::from_millis(30) {}
    let ms = job.duration_ms();
    assert!(ms >= 30 && ms < 10_000);
}

#[test]
fn both_clocks_show_the_present() {
    let before = Instant::now();
    let m = moment();
    assert!(before <= m.instant && m.instant <= Instant::now());
    assert!((m.time.secs - now().secs).abs() <= 5);
}

#[test]
fn the_answers_of_its_ranks_do_not_restart_a_job() {
    let start = Instant::now() - Duration::from_secs(9);
    let mut job = MpiJobState::started(1, 2, start);
    job.record_result(0, TaskOutput::success("a".to_string()), 7);
    job.record_error(1, "no".to_string());
    assert_eq!(job.started_at, start);
    let mut state = AppState::new(30, 300, 3);
    state.start_job(1, 2, start);
    assert_eq!(state.record_result(1, 0, TaskOutput::success("a".to_string()), 7), Some(false));
    assert!(state.job_duration_ms(1) >= 9_000);
    assert_eq!(state.record_error(1, 1, "no".to_string()), Some(true));
    let ms = state.job_duration_ms(1);
    assert!(ms >= 9_000 && ms < 60_000);
    assert_eq!(state.job_duration_ms(2), 0);
}

#[test]
fn the_lowest_bits_of_a_duration_are_reported() {
    assert_eq!(reported_millis(0), 0);
    assert_eq!(reported_millis(234), 234);
    assert_eq!(reported_millis(u64::MAX as u128), u64::MAX);
    assert_eq!(reported_millis(u64::MAX as u128 + 8), 7);
}
