use portpeek::gate::{classify, classify_with, gate, gate_with, refusal_message, HostKind, IpAddress};

/// What each host of these tests reads as when taken as an IP address, written out.
fn addr_of(host: &str) -> Option<IpAddress> {
    match host {
        "127.0.0.1" => Some(IpAddress::V4([127, 0, 0, 1])),
        "127.0.0.2" => Some(IpAddress::V4([127, 0, 0, 2])),
        "127.255.0.9" => Some(IpAddress::V4([127, 255, 0, 9])),
        "0.0.0.0" => Some(IpAddress::V4([0, 0, 0, 0])),
        "192.168.1.1" => Some(IpAddress::V4([192, 168, 1, 1])),
        "10.0.0.5" => Some(IpAddress::V4([10, 0, 0, 5])),
        "172.16.0.1" => Some(IpAddress::V4([172, 16, 0, 1])),
        "8.8.8.8" => Some(IpAddress::V4([8, 8, 8, 8])),
        "::1" => Some(IpAddress::V6([0, 0, 0, 0, 0, 0, 0, 1])),
        "::" => Some(IpAddress::V6([0, 0, 0, 0, 0, 0, 0, 0])),
        "2001:db8::1" => Some(IpAddress::V6([0x2001, 0xdb8, 0, 0, 0, 0, 0, 1])),
        "::ffff:127.0.0.1" => Some(IpAddress::V6([0, 0, 0, 0, 0, 0xffff, 0x7f00, 1])),
        "localhost" | "LOCALHOST" | "Localhost" | "example.com" | "corp-dev.example.com"
        | "localhost.localdomain" | "a\"b" => None,
        other => panic!("no address written out for {other:?}"),
    }
}

fn kind(host: &str) -> HostKind {
    classify(host)
}

fn gate_of(host: &str, allow_remote: bool) -> Result<(), String> {
    gate(host, allow_remote)
}

#[test]
fn localhost_is_local() {
    assert_eq!(kind("localhost"), HostKind::Local);
    assert_eq!(kind("LOCALHOST"), HostKind::Local);
    assert_eq!(kind("Localhost"), HostKind::Local);
}

#[test]
fn loopback_ipv4_is_local() {
    for host in ["127.0.0.1", "127.0.0.2", "127.255.0.9"] {
        assert_eq!(kind(host), HostKind::Local, "{host} should be local");
    }
}

#[test]
fn loopback_ipv6_is_local() {
    assert_eq!(kind("::1"), HostKind::Local);
}

#[test]
fn unspecified_is_local() {
    assert_eq!(kind("0.0.0.0"), HostKind::Local);
    assert_eq!(kind("::"), HostKind::Local);
}

#[test]
fn rfc1918_is_remote() {
    assert_eq!(kind("192.168.1.1"), HostKind::Remote);
    assert_eq!(kind("10.0.0.5"), HostKind::Remote);
    assert_eq!(kind("172.16.0.1"), HostKind::Remote);
}

#[test]
fn public_ips_are_remote() {
    assert_eq!(kind("8.8.8.8"), HostKind::Remote);
    assert_eq!(kind("2001:db8::1"), HostKind::Remote);
}

#[test]
fn ipv4_mapped_loopback_is_remote() {
    assert_eq!(kind("::ffff:127.0.0.1"), HostKind::Remote);
}

#[test]
fn hostnames_are_remote() {
    assert_eq!(kind("example.com"), HostKind::Remote);
    assert_eq!(kind("corp-dev.example.com"), HostKind::Remote);
    assert_eq!(kind("localhost.localdomain"), HostKind::Remote);
}

#[test]
fn gate_passes_local() {
    assert_eq!(gate_of("127.0.0.1", false), Ok(()));
    assert_eq!(gate_of("::1", false), Ok(()));
}

#[test]
fn gate_blocks_remote_without_flag() {
    let err = gate_of("192.168.1.1", false).unwrap_err();
    assert!(
        err.contains("--allow-remote"),
        "message should name the flag: {err}"
    );
}

#[test]
fn gate_passes_remote_with_flag() {
    assert_eq!(gate_of("8.8.8.8", true), Ok(()));
}

#[test]
fn gate_refusal_quotes_the_host() {
    let err = gate_of("192.168.1.1", false).unwrap_err();
    assert_eq!(
        err,
        "refusing to scan remote host \"192.168.1.1\" without --allow-remote.\n\n\
         This tool scans 127.0.0.1 by default. Scanning another machine \
         without the owner's consent can be illegal in your jurisdiction.\n\
         If you own \"192.168.1.1\" or have permission, re-run with --allow-remote."
    );
}

#[test]
fn gate_refusal_escapes_the_host() {
    let err = gate_of("a\"b", false).unwrap_err();
    assert!(err.contains("host \"a\\\"b\" without"), "{err}");
}

#[test]
fn refusal_message_takes_the_quoted_host() {
    let m = refusal_message("<h>");
    assert!(m.starts_with("refusing to scan remote host <h> without --allow-remote."));
    assert!(m.contains("If you own <h> or have permission"));
}

#[test]
fn classify_with_a_given_reading() {
    assert_eq!(classify_with("localhost", None), HostKind::Local);
    assert_eq!(classify_with("lOcAlHoSt", None), HostKind::Local);
    assert_eq!(classify_with("localhos", None), HostKind::Remote);
    assert_eq!(classify_with("127.0.0.1", None), HostKind::Remote);
    for host in [
        "127.0.0.1", "127.0.0.2", "127.255.0.9", "0.0.0.0", "192.168.1.1", "10.0.0.5",
        "172.16.0.1", "8.8.8.8", "::1", "::", "2001:db8::1", "::ffff:127.0.0.1", "localhost",
        "LOCALHOST", "Localhost", "example.com", "corp-dev.example.com", "localhost.localdomain",
    ] {
        assert_eq!(classify_with(host, addr_of(host)), classify(host), "{host}");
        assert_eq!(gate_with(host, addr_of(host), false), gate(host, false), "{host}");
    }
}

#[test]
fn host_text_is_read_as_an_address() {
    assert_eq!(classify("127.000.0.1"), HostKind::Remote);
    assert_eq!(classify("0:0:0:0:0:0:0:1"), HostKind::Local);
    assert_eq!(classify("[::1]"), HostKind::Remote);
    assert_eq!(classify(" 127.0.0.1"), HostKind::Remote);
    assert_eq!(classify("127.1"), HostKind::Remote);
}

#[test]
fn loopback_and_unspecified_addresses() {
    assert!(IpAddress::V4([127, 9, 9, 9]).loopback());
    assert!(!IpAddress::V4([128, 0, 0, 1]).loopback());
    assert!(IpAddress::V6([0, 0, 0, 0, 0, 0, 0, 1]).loopback());
    assert!(!IpAddress::V6([0, 0, 0, 0, 0, 0xffff, 0x7f00, 1]).loopback());
    assert!(IpAddress::V4([0, 0, 0, 0]).unspecified());
    assert!(!IpAddress::V4([0, 0, 0, 1]).unspecified());
    assert!(IpAddress::V6([0; 8]).unspecified());
}

#[test]
fn remote_gate_only_with_flag() {
    for host in ["10.0.0.5", "example.com", "2001:db8::1"] {
        assert!(gate_of(host, false).is_err());
        assert_eq!(gate_of(host, true), Ok(()));
    }
    for host in ["localhost", "127.0.0.2", "::", "0.0.0.0"] {
        assert_eq!(gate_of(host, false), Ok(()));
        assert_eq!(gate_of(host, true), Ok(()));
    }
}

#[test]
fn host_kind_labels() {
    assert_eq!(HostKind::Local.label(), "local");
    assert_eq!(HostKind::Remote.label(), "remote");
}
