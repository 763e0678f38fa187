use std::time::Duration;

use portpeek::scan::{PortResult, Status};
use portpeek::span::TimeSpan;
use portpeek::wait::{expired_message, progress_line, WaitStep, Waiter};

fn result(port: u16, status: Status) -> PortResult {
    PortResult { port, status, latency: TimeSpan::from_millis(1) }
}

fn as_duration(d: TimeSpan) -> Duration {
    Duration::new(d.as_secs(), d.subsec_nanos())
}

#[test]
fn done_when_all_open() {
    let mut w = Waiter::new(2, TimeSpan::from_secs(5));
    w.begin_attempt();
    let rs = vec![result(1, Status::Open), result(2, Status::Open)];
    match w.after_scan(rs, TimeSpan::from_secs(100)) {
        WaitStep::Done(o) => {
            assert!(o.all_open);
            assert_eq!(o.attempts, 1);
            assert_eq!(o.results.len(), 2);
        }
        WaitStep::Sleep(_) => panic!("expected the wait to end"),
    }
}

#[test]
fn gives_up_after_deadline() {
    let mut w = Waiter::new(2, TimeSpan::from_millis(300));
    w.begin_attempt();
    w.begin_attempt();
    let rs = vec![result(1, Status::Open), result(2, Status::Closed)];
    match w.after_scan(rs, TimeSpan::from_millis(300)) {
        WaitStep::Done(o) => {
            assert!(!o.all_open);
            assert_eq!(o.attempts, 2);
        }
        WaitStep::Sleep(_) => panic!("expected the wait to end"),
    }
}

#[test]
fn sleeps_at_most_half_a_second_and_not_past_deadline() {
    let mut w = Waiter::new(1, TimeSpan::from_secs(10));
    w.begin_attempt();
    match w.after_scan(vec![result(1, Status::Closed)], TimeSpan::from_millis(100)) {
        WaitStep::Sleep(d) => assert_eq!(as_duration(d), Duration::from_millis(500)),
        WaitStep::Done(_) => panic!("expected a sleep"),
    }
    match w.after_scan(vec![result(1, Status::Filtered)], TimeSpan::new(9, 800_000_000)) {
        WaitStep::Sleep(d) => assert_eq!(as_duration(d), Duration::from_millis(200)),
        WaitStep::Done(_) => panic!("expected a sleep"),
    }
}

#[test]
fn attempts_count_up() {
    let mut w = Waiter::new(1, TimeSpan::from_secs(1));
    assert_eq!(w.attempts(), 0);
    w.begin_attempt();
    w.begin_attempt();
    w.begin_attempt();
    assert_eq!(w.attempts(), 3);
}

#[test]
fn wait_messages() {
    let rs = vec![result(1, Status::Open), result(2, Status::Closed)];
    assert_eq!(progress_line(3, &rs, 2), "attempt 3: 1/2 open");
    assert_eq!(
        expired_message(4, "0 open, 1 closed, 0 filtered in 0.3s"),
        "wait deadline expired after 4 attempts: 0 open, 1 closed, 0 filtered in 0.3s"
    );
}

#[test]
fn time_span_parts() {
    let t = TimeSpan::new(3, 250_000_000);
    assert_eq!(t.as_secs(), 3);
    assert_eq!(t.subsec_nanos(), 250_000_000);
    assert!(t.at_least(&TimeSpan::from_millis(3250)));
    assert!(!t.at_least(&TimeSpan::from_millis(3251)));
    assert_eq!(as_duration(t.minus(&TimeSpan::from_secs(1))), Duration::from_millis(2250));
    assert_eq!(as_duration(t.shorter(TimeSpan::from_secs(1))), Duration::from_secs(1));
    assert!(TimeSpan::from_secs(0).is_zero());
    let max = TimeSpan::new(u64::MAX, 999_999_999);
    assert_eq!(as_duration(max), Duration::MAX);
}
