use portpeek::report::{
    exit_code, header_line, render_row, render_rows, summary_line, Style,
};
use portpeek::scan::{PortResult, Status};
use portpeek::span::TimeSpan;

fn result(port: u16, status: Status) -> PortResult {
    PortResult { port, status, latency: TimeSpan::from_millis(1) }
}

#[test]
fn style_detection() {
    assert!(Style::detect_from(true, false).enabled);
    assert!(!Style::detect_from(true, true).enabled);
    assert!(!Style::detect_from(false, false).enabled);
}

#[test]
fn wrap_colours_only_when_enabled() {
    let on = Style { enabled: true };
    let off = Style { enabled: false };
    assert_eq!(on.wrap("\x1b[1m", "x"), "\x1b[1mx\x1b[0m");
    assert_eq!(off.wrap("\x1b[1m", "x"), "x");
    assert_eq!(on.status(Status::Open), "\x1b[32mopen    \x1b[0m");
    assert_eq!(on.status(Status::Closed), "\x1b[2mclosed  \x1b[0m");
    assert_eq!(on.status(Status::Filtered), "\x1b[33mfiltered\x1b[0m");
    assert_eq!(off.status(Status::Closed), "closed  ");
}

#[test]
fn header() {
    assert_eq!(header_line(), format!("{:>5}  {:<12}  {:<8}  LATENCY", "PORT", "SERVICE", "STATUS"));
}

#[test]
fn rows() {
    let off = Style { enabled: false };
    assert_eq!(
        render_row(&off, &result(22, Status::Open), "0.3ms"),
        format!("{:>5}  {:<12}  {}  {}", 22, "ssh", "open    ", "0.3ms")
    );
    assert_eq!(
        render_row(&off, &result(9200, Status::Filtered), "1.0s"),
        " 9200  elasticsearch  filtered  1.0s"
    );
    let rs = vec![
        result(22, Status::Open),
        result(23, Status::Closed),
        result(80, Status::Filtered),
    ];
    let lat = vec!["a".to_string(), "b".to_string(), "c".to_string()];
    let all = render_rows(&off, &rs, &lat, false);
    assert_eq!(all.len(), 3);
    assert_eq!(all[1], "   23  -             closed    b");
    let open = render_rows(&off, &rs, &lat, true);
    assert_eq!(open, vec!["   22  ssh           open      a".to_string()]);
    for line in render_rows(&off, &rs, &lat, false) {
        assert!(!line.contains('\x1b'));
    }
}

#[test]
fn summary() {
    let rs = vec![
        result(22, Status::Open),
        result(23, Status::Closed),
        result(24, Status::Closed),
        result(80, Status::Filtered),
    ];
    assert_eq!(summary_line(&rs, "0.5"), "1 open, 2 closed, 1 filtered in 0.5s");
    assert_eq!(summary_line(&Vec::new(), "0.0"), "0 open, 0 closed, 0 filtered in 0.0s");
}

#[test]
fn exit_codes() {
    assert_eq!(exit_code(true), 0);
    assert_eq!(exit_code(false), 1);
}

#[test]
fn summary_ignores_order() {
    let rs = vec![
        result(22, Status::Open),
        result(23, Status::Closed),
        result(80, Status::Filtered),
        result(81, Status::Closed),
    ];
    let mut reordered = rs.clone();
    reordered.reverse();
    reordered.swap(0, 2);
    assert_eq!(summary_line(&reordered, "1.2"), summary_line(&rs, "1.2"));
}
