use std::time::Duration;

use portpeek::parse::{
    duration_in_bounds, duration_message, parse, parse_duration, read_duration, DurationFault,
    ParseError,
};
use portpeek::span::TimeSpan;

fn as_duration(d: TimeSpan) -> Duration {
    Duration::new(d.as_secs(), d.subsec_nanos())
}

fn duration(s: &str) -> Result<Duration, String> {
    parse_duration(s).map(as_duration)
}

#[test]
fn single_port() {
    assert_eq!(parse("80"), Ok(vec![80]));
}

#[test]
fn comma_list() {
    assert_eq!(parse("80,443"), Ok(vec![80, 443]));
}

#[test]
fn range() {
    assert_eq!(parse("8080-8082"), Ok(vec![8080, 8081, 8082]));
}

#[test]
fn full_range() {
    let v = parse("1-1024").unwrap();
    assert_eq!(v.len(), 1024);
    assert_eq!(v[0], 1);
    assert_eq!(v[1023], 1024);
}

#[test]
fn dedup_and_sort() {
    assert_eq!(parse("443,80,80,1-5"), Ok(vec![1, 2, 3, 4, 5, 80, 443]));
}

#[test]
fn mixed_spec() {
    assert_eq!(
        parse("80,443,8080-8081,22"),
        Ok(vec![22, 80, 443, 8080, 8081])
    );
}

#[test]
fn max_port() {
    assert_eq!(parse("65535"), Ok(vec![65535]));
}

#[test]
fn empty_spec_rejected() {
    assert_eq!(parse(""), Err(ParseError::Empty));
}

#[test]
fn empty_item_rejected() {
    assert_eq!(parse("80,,443"), Err(ParseError::EmptyItem));
}

#[test]
fn whitespace_rejected() {
    let err = parse("80, 443").unwrap_err();
    assert_eq!(err, ParseError::Whitespace(" 443".to_string()));
}

#[test]
fn port_zero_rejected() {
    assert_eq!(parse("0"), Err(ParseError::PortZero));
}

#[test]
fn out_of_range_rejected() {
    assert!(matches!(parse("65536"), Err(ParseError::NotAPort(_))));
}

#[test]
fn non_numeric_rejected() {
    assert!(matches!(parse("http"), Err(ParseError::NotAPort(_))));
}

#[test]
fn reversed_range_rejected() {
    assert_eq!(
        parse("443-80"),
        Err(ParseError::InvalidRange { lo: 443, hi: 80 })
    );
}

#[test]
fn duration_units() {
    assert_eq!(duration("500ms"), Ok(Duration::from_millis(500)));
    assert_eq!(duration("2s"), Ok(Duration::from_secs(2)));
    assert_eq!(duration("90"), Ok(Duration::from_secs(90)));
    assert_eq!(duration("1m"), Ok(Duration::from_secs(60)));
    assert_eq!(duration("1h"), Ok(Duration::from_secs(3600)));
}

#[test]
fn duration_errors() {
    assert!(parse_duration("1x").is_err());
    assert!(parse_duration("-5s").is_err());
    assert!(parse_duration("0s").is_err());
    assert!(parse_duration("").is_err());
}

#[test]
fn whole_port_range() {
    let v = parse("1-65535").unwrap();
    assert_eq!(v.len(), 65535);
    assert_eq!(v[0], 1);
    assert_eq!(v[65534], 65535);
}

#[test]
fn comma_join_is_union_in_any_order() {
    let a = parse("8080-8082,22").unwrap();
    let b = parse("443,8081").unwrap();
    let ab = parse("8080-8082,22,443,8081").unwrap();
    let ba = parse("443,8081,8080-8082,22").unwrap();
    let mut union: Vec<u16> = a.iter().chain(b.iter()).copied().collect();
    union.sort();
    union.dedup();
    assert_eq!(ab, union);
    assert_eq!(ba, union);
}

#[test]
fn first_error_wins() {
    assert_eq!(parse("0,x"), Err(ParseError::PortZero));
    assert_eq!(parse("x,0"), Err(ParseError::NotAPort("x".to_string())));
    assert_eq!(parse("80,9-1,,"), Err(ParseError::InvalidRange { lo: 9, hi: 1 }));
    assert_eq!(parse("80,"), Err(ParseError::EmptyItem));
    assert_eq!(parse(",80"), Err(ParseError::EmptyItem));
}

#[test]
fn each_parse_error() {
    assert_eq!(parse("80\t"), Err(ParseError::Whitespace("80\t".to_string())));
    assert_eq!(parse("80\u{a0}"), Err(ParseError::Whitespace("80\u{a0}".to_string())));
    assert_eq!(parse("+80"), Err(ParseError::NotAPort("+80".to_string())));
    assert_eq!(parse("-80"), Err(ParseError::NotAPort("".to_string())));
    assert_eq!(parse("80-"), Err(ParseError::NotAPort("".to_string())));
    assert_eq!(parse("1-2-3"), Err(ParseError::NotAPort("2-3".to_string())));
    assert_eq!(parse("0-5"), Err(ParseError::PortZero));
    assert_eq!(parse("99999"), Err(ParseError::NotAPort("99999".to_string())));
    assert_eq!(parse("٣"), Err(ParseError::NotAPort("٣".to_string())));
}

#[test]
fn leading_zeros_and_single_point_range() {
    assert_eq!(parse("0080"), Ok(vec![80]));
    assert_eq!(parse("00"), Err(ParseError::PortZero));
    assert_eq!(parse("7-7"), Ok(vec![7]));
    assert_eq!(parse("65534-65535"), Ok(vec![65534, 65535]));
}

#[test]
fn parse_error_messages() {
    assert_eq!(ParseError::Empty.message(), "port spec is empty");
    assert_eq!(ParseError::EmptyItem.message(), "empty item in port spec");
    assert_eq!(
        ParseError::Whitespace(" 443".to_string()).message(),
        "whitespace in port spec: \" 443\" (quote the spec, no spaces)"
    );
    assert_eq!(
        ParseError::NotAPort("ht\"tp".to_string()).message(),
        "not a valid port: \"ht\\\"tp\""
    );
    assert_eq!(ParseError::PortZero.message(), "port 0 cannot be scanned");
    assert_eq!(
        ParseError::InvalidRange { lo: 443, hi: 80 }.message(),
        "invalid range 443-80: low > high"
    );
    assert_eq!(
        ParseError::NotAPort("x".to_string()).describe("<x>"),
        "not a valid port: <x>"
    );
}

#[test]
fn bare_number_is_seconds() {
    for s in ["0", "1", "90", "18446744073709551615", "018"] {
        let with_unit = format!("{s}s");
        assert_eq!(read_duration(s), read_duration(&with_unit));
    }
}

#[test]
fn duration_faults() {
    assert_eq!(read_duration("1x"), Err(DurationFault::Invalid));
    assert_eq!(read_duration("-5s"), Err(DurationFault::Invalid));
    assert_eq!(read_duration(""), Err(DurationFault::Invalid));
    assert_eq!(read_duration("ms"), Err(DurationFault::Invalid));
    assert_eq!(read_duration("1 s"), Err(DurationFault::Invalid));
    assert_eq!(read_duration("18446744073709551616"), Err(DurationFault::OutOfRange));
    assert_eq!(read_duration("0s"), Err(DurationFault::Zero));
    assert_eq!(read_duration("0ms"), Err(DurationFault::Zero));
    assert_eq!(read_duration("0h"), Err(DurationFault::Zero));
}

#[test]
fn duration_largest_values() {
    let d = read_duration("18446744073709551615").unwrap();
    assert_eq!(as_duration(d), Duration::from_secs(u64::MAX));
    let ms = read_duration("18446744073709551615ms").unwrap();
    assert_eq!(as_duration(ms), Duration::from_millis(u64::MAX));
    let m = read_duration("307445734561825860m").unwrap();
    assert_eq!(as_duration(m), Duration::from_secs(307445734561825860 * 60));
}

#[test]
fn duration_bounds() {
    assert!(duration_in_bounds("307445734561825860m"));
    assert!(!duration_in_bounds("307445734561825861m"));
    assert!(duration_in_bounds("5124095576030431h"));
    assert!(!duration_in_bounds("5124095576030432h"));
    assert!(duration_in_bounds("18446744073709551615"));
    assert!(duration_in_bounds("18446744073709551616m"));
    assert!(duration_in_bounds("abc"));
}

#[test]
fn duration_error_messages() {
    assert_eq!(
        parse_duration("1x"),
        Err("not a valid duration: \"1x\" (expected e.g. 500ms, 2s, 1m; bare numbers mean seconds)".to_string())
    );
    assert_eq!(
        parse_duration("99999999999999999999"),
        Err("duration out of range: \"99999999999999999999\"".to_string())
    );
    assert_eq!(
        parse_duration("0s"),
        Err("duration must be greater than zero: \"0s\"".to_string())
    );
    assert_eq!(
        duration_message(DurationFault::Zero, "<q>"),
        "duration must be greater than zero: <q>"
    );
}

#[test]
fn units_scale() {
    for n in [1u64, 7, 60, 1000, 307445734561825860] {
        assert_eq!(read_duration(&n.to_string()), read_duration(&format!("{n}s")));
        if n.checked_mul(60).is_some() {
            assert_eq!(read_duration(&format!("{n}m")), read_duration(&format!("{}s", n * 60)));
        }
        if n.checked_mul(3600).is_some() {
            assert_eq!(read_duration(&format!("{n}h")), read_duration(&format!("{}s", n * 3600)));
        }
        if n.checked_mul(1000).is_some() {
            assert_eq!(read_duration(&format!("{n}s")), read_duration(&format!("{n}000ms")));
        }
    }
}
