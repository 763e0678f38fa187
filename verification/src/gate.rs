//! The safety gate: only this machine is scanned unless remote hosts are allowed.

use vstd::prelude::*;

use crate::text::{debug_quote, debug_text, eq_ignore_ascii_case, equal_ignoring_ascii_case};

verus! {

/// Whether a host is this machine or another one.
#[derive(Debug, Clone, Copy, PartialEq, Eq, Structural)]
pub enum HostKind {
    Local,
    Remote,
}

impl HostKind {
    /// The name of the kind: `local` or `remote`.
    pub fn label(self) -> (r: &'static str)
        ensures
            r@ == match self {
                HostKind::Local => "local"@,
                HostKind::Remote => "remote"@,
            },
    {
        match self {
            HostKind::Local => "local",
            HostKind::Remote => "remote",
        }
    }
}

/// An IP address as std's `IpAddr` holds it: four octets, or eight 16-bit segments.
#[derive(Debug, Clone, Copy, PartialEq, Eq)]
pub enum IpAddress {
    V4([u8; 4]),
    V6([u16; 8]),
}

/// A loopback address: `127.0.0.0/8`, or `::1`.
pub open spec fn is_loopback(a: IpAddress) -> bool {
    match a {
        IpAddress::V4(o) => o@[0] == 127,
        IpAddress::V6(s) => s@ == seq![0u16, 0, 0, 0, 0, 0, 0, 1],
    }
}

/// The unspecified address: `0.0.0.0`, or `::`.
pub open spec fn is_unspecified(a: IpAddress) -> bool {
    match a {
        IpAddress::V4(o) => o@ == seq![0u8, 0, 0, 0],
        IpAddress::V6(s) => s@ == seq![0u16, 0, 0, 0, 0, 0, 0, 0],
    }
}

impl IpAddress {
    /// Whether this is a loopback address.
    pub fn loopback(&self) -> (r: bool)
        ensures
            r == is_loopback(*self),
    {
        match self {
            IpAddress::V4(o) => o[0] == 127,
            IpAddress::V6(s) => {
                let r = s[0] == 0 && s[1] == 0 && s[2] == 0 && s[3] == 0 && s[4] == 0 && s[5] == 0
                    && s[6] == 0 && s[7] == 1;
                assert(r == (s@ =~= seq![0u16, 0, 0, 0, 0, 0, 0, 1]));
                r
            },
        }
    }

    /// Whether this is the unspecified address.
    pub fn unspecified(&self) -> (r: bool)
        ensures
            r == is_unspecified(*self),
    {
        match self {
            IpAddress::V4(o) => {
                let r = o[0] == 0 && o[1] == 0 && o[2] == 0 && o[3] == 0;
                assert(r == (o@ =~= seq![0u8, 0, 0, 0]));
                r
            },
            IpAddress::V6(s) => {
                let r = s[0] == 0 && s[1] == 0 && s[2] == 0 && s[3] == 0 && s[4] == 0 && s[5] == 0
                    && s[6] == 0 && s[7] == 0;
                assert(r == (s@ =~= seq![0u16, 0, 0, 0, 0, 0, 0, 0]));
                r
            },
        }
    }
}

/// The kind of host that `host` names. `addr` is what `host` reads as when taken
/// as an IP address (`None` when it is not one). The name `localhost`, in any
/// case, is local; so is a loopback or unspecified address; every other host,
/// hostnames included, is remote: no name is looked up.
pub open spec fn host_kind(host: Seq<char>, addr: Option<IpAddress>) -> HostKind {
    if eq_ignore_ascii_case(host, "localhost"@) {
        HostKind::Local
    } else {
        match addr {
            Some(a) => if is_loopback(a) || is_unspecified(a) {
                HostKind::Local
            } else {
                HostKind::Remote
            },
            None => HostKind::Remote,
        }
    }
}

/// What std's `IpAddr` parser reads `host` as: an IPv4 or IPv6 address, or
/// `None` when the text is not an address.
pub uninterp spec fn ip_address_of(host: Seq<char>) -> Option<IpAddress>;

/// Reads `host` with std's `IpAddr` parser (`str::parse::<IpAddr>`, from
/// `core::net`, which only computes). The contract claims only that the result
/// is `ip_address_of` of the host's characters: the address grammar is left to std.
#[verifier::external_body]
pub(crate) fn address_of(host: &str) -> (r: Option<IpAddress>)
    ensures
        r == ip_address_of(host@),
{
    match host.parse::<core::net::IpAddr>() {
        Ok(core::net::IpAddr::V4(a)) => Some(IpAddress::V4(a.octets())),
        Ok(core::net::IpAddr::V6(a)) => Some(IpAddress::V6(a.segments())),
        Err(_) => None,
    }
}

/// Classifies `host`: `localhost` in any case, and loopback or unspecified
/// addresses, are local; every other host is remote. Only the text is read: no
/// name is looked up.
pub fn classify(host: &str) -> (r: HostKind)
    ensures
        r == host_kind(host@, ip_address_of(host@)),
{
    let addr = address_of(host);
    classify_with(host, addr)
}

/// Classifies `host`, given what it reads as when taken as an IP address.
pub fn classify_with(host: &str, addr: Option<IpAddress>) -> (r: HostKind)
    ensures
        r == host_kind(host@, addr),
{
    if equal_ignoring_ascii_case(host, "localhost") {
        return HostKind::Local;
    }
    match addr {
        Some(a) => if a.loopback() || a.unspecified() {
            HostKind::Local
        } else {
            HostKind::Remote
        },
        None => HostKind::Remote,
    }
}

/// The refusal for a remote host, given the host as `{:?}` shows it.
pub open spec fn refusal_text(quoted: Seq<char>) -> Seq<char> {
    "refusing to scan remote host "@ + quoted + " without --allow-remote.\n\n"@
        + "This tool scans 127.0.0.1 by default. Scanning another machine "@
        + "without the owner's consent can be illegal in your jurisdiction.\n"@ + "If you own "@
        + quoted + " or have permission, re-run with --allow-remote."@
}

/// `needle` occurs in `hay`.
pub open spec fn contains_text(hay: Seq<char>, needle: Seq<char>) -> bool {
    exists|i: int| 0 <= i && i + needle.len() <= hay.len() && #[trigger] hay.subrange(
        i,
        i + needle.len(),
    ) == needle
}

/// The refusal for a remote host, given the host as `{:?}` shows it. It names the
/// flag that lifts it.
pub fn refusal_message(quoted: &str) -> (r: String)
    ensures
        r@ == refusal_text(quoted@),
        contains_text(r@, "--allow-remote"@),
{
    let mut m = "refusing to scan remote host ".to_owned();
    m.append(quoted);
    m.append(" without --allow-remote.\n\n");
    m.append("This tool scans 127.0.0.1 by default. Scanning another machine ");
    m.append("without the owner's consent can be illegal in your jurisdiction.\n");
    m.append("If you own ");
    m.append(quoted);
    m.append(" or have permission, re-run with --allow-remote.");
    proof {
        reveal_strlit(" or have permission, re-run with --allow-remote.");
        reveal_strlit("--allow-remote");
        let tail = " or have permission, re-run with --allow-remote."@;
        let k = m@.len() - tail.len();
        assert(m@.subrange(k, m@.len() as int) =~= tail);
        let i = m@.len() - 15;
        assert(m@.subrange(i, i + 14) =~= "--allow-remote"@);
    }
    m
}

/// Lets a scan of `host` go ahead: always for this machine, and for another host
/// only when `allow_remote` is set. The host is read as typed: no name is looked up.
pub fn gate(host: &str, allow_remote: bool) -> (r: Result<(), String>)
    ensures
        r is Ok <==> (host_kind(host@, ip_address_of(host@)) == HostKind::Local || allow_remote),
        r matches Err(m) ==> m@ == refusal_text(debug_text(host@)) && contains_text(
            m@,
            "--allow-remote"@,
        ),
{
    let addr = address_of(host);
    gate_with(host, addr, allow_remote)
}

/// Decides as `gate` does, with the IP reading of `host` handed in (`None` when
/// the text is no address).
pub fn gate_with(host: &str, addr: Option<IpAddress>, allow_remote: bool) -> (r: Result<
    (),
    String,
>)
    ensures
        r is Ok <==> (host_kind(host@, addr) == HostKind::Local || allow_remote),
        r matches Err(m) ==> m@ == refusal_text(debug_text(host@)) && contains_text(
            m@,
            "--allow-remote"@,
        ),
{
    match classify_with(host, addr) {
        HostKind::Local => Ok(()),
        HostKind::Remote => {
            if allow_remote {
                Ok(())
            } else {
                let q = debug_quote(host);
                Err(refusal_message(q.as_str()))
            }
        },
    }
}

/// Every IPv4 address in `127.0.0.0/8` is local, whatever its last three octets
/// and whatever the host text, so `gate` allows it without `--allow-remote`. An IPv4 address outside `127.0.0.0/8` other than `0.0.0.0`
/// is remote unless the text is `localhost`.
pub proof fn lemma_ipv4_kinds(host: Seq<char>, o: [u8; 4])
    ensures
        o@[0] == 127 ==> host_kind(host, Some(IpAddress::V4(o))) == HostKind::Local,
        o@[0] != 127 && o@ != seq![0u8, 0, 0, 0] && !eq_ignore_ascii_case(host, "localhost"@)
            ==> host_kind(host, Some(IpAddress::V4(o))) == HostKind::Remote,
{
}

} // verus!
