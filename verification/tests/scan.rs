use portpeek::scan::{any_open, count_status, permit_count, sort_by_port, PortResult, Status};
use portpeek::span::TimeSpan;

fn result(port: u16, status: Status, ms: u64) -> PortResult {
    PortResult { port, status, latency: TimeSpan::from_millis(ms) }
}

#[test]
fn labels() {
    assert_eq!(Status::Open.label(), "open");
    assert_eq!(Status::Closed.label(), "closed");
    assert_eq!(Status::Filtered.label(), "filtered");
}

#[test]
fn probe_status() {
    assert_eq!(Status::of_probe(true, true), Status::Open);
    assert_eq!(Status::of_probe(true, false), Status::Closed);
    assert_eq!(Status::of_probe(false, false), Status::Filtered);
    assert_eq!(Status::of_probe(false, true), Status::Filtered);
}

#[test]
fn results_sorted_by_port_stably() {
    let input = vec![
        result(8080, Status::Open, 1),
        result(22, Status::Closed, 2),
        result(8080, Status::Closed, 3),
        result(1, Status::Filtered, 4),
        result(22, Status::Open, 5),
        result(65535, Status::Open, 6),
        result(0, Status::Open, 7),
    ];
    let sorted = sort_by_port(input);
    let got: Vec<(u16, Status, u64)> = sorted
        .iter()
        .map(|r| (r.port, r.status, r.latency.as_secs() * 1000 + r.latency.subsec_nanos() as u64 / 1_000_000))
        .collect();
    assert_eq!(
        got,
        vec![
            (0, Status::Open, 7),
            (1, Status::Filtered, 4),
            (22, Status::Closed, 2),
            (22, Status::Open, 5),
            (8080, Status::Open, 1),
            (8080, Status::Closed, 3),
            (65535, Status::Open, 6),
        ]
    );
    assert!(sort_by_port(Vec::new()).is_empty());
}

#[test]
fn open_results_counted() {
    let rs = vec![
        result(1, Status::Open, 0),
        result(2, Status::Closed, 0),
        result(3, Status::Closed, 0),
        result(4, Status::Filtered, 0),
    ];
    assert!(any_open(&rs));
    assert_eq!(count_status(&rs, Status::Open), 1);
    assert_eq!(count_status(&rs, Status::Closed), 2);
    assert_eq!(count_status(&rs, Status::Filtered), 1);
    assert!(!any_open(&rs[1..].to_vec()));
    assert!(!any_open(&Vec::new()));
}

#[test]
fn permits() {
    assert_eq!(permit_count(0), 1);
    assert_eq!(permit_count(1), 1);
    assert_eq!(permit_count(200), 200);
}
