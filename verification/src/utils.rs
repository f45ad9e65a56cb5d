//! Small shared pieces: the UDP relay modes, the congestion controller
//! names with their parsers, and ASCII case-insensitive byte matching.

use vstd::prelude::*;
use vstd::string::StringSliceAdditionalSpecFns;

use crate::address::{IpAddress, SocketAddress};

verus! {

/// ASCII lower-casing of one byte.
pub open spec fn ascii_lower(b: u8) -> u8 {
    if 65 <= b && b <= 90 {
        (b + 32) as u8
    } else {
        b
    }
}

/// Byte strings equal up to ASCII case.
pub open spec fn eq_ignore_ascii(a: Seq<u8>, b: Seq<u8>) -> bool {
    a.len() == b.len() && (forall|i: int|
        0 <= i < a.len() ==> ascii_lower(a[i]) == ascii_lower(b[i]))
}

/// Compares two byte strings ignoring ASCII case.
pub fn bytes_eq_ignore_ascii_case(a: &[u8], b: &[u8]) -> (r: bool)
    ensures
        r == eq_ignore_ascii(a@, b@),
{
    if a.len() != b.len() {
        return false;
    }
    let mut i: usize = 0;
    while i < a.len()
        invariant
            a@.len() == b@.len(),
            i <= a@.len(),
            forall|j: int| 0 <= j < i ==> ascii_lower(a@[j]) == ascii_lower(b@[j]),
        decreases a@.len() - i,
    {
        let x = a[i];
        let y = b[i];
        let lx = if 65 <= x && x <= 90 {
            x + 32
        } else {
            x
        };
        let ly = if 65 <= y && y <= 90 {
            y + 32
        } else {
            y
        };
        if lx != ly {
            return false;
        }
        i = i + 1;
    }
    true
}

/// How UDP packets travel back to the client: as QUIC datagrams (native)
/// or over unidirectional streams (quic).
#[derive(Clone, Copy, Debug, PartialEq, Eq)]
pub enum UdpRelayMode {
    Native,
    Quic,
}

impl UdpRelayMode {
    /// The mode's lower-case name, in place of a `Display` implementation.
    pub fn as_str(&self) -> (r: &'static str)
        ensures
            *self is Native ==> r@ == "native"@,
            *self is Quic ==> r@ == "quic"@,
    {
        match self {
            UdpRelayMode::Native => "native",
            UdpRelayMode::Quic => "quic",
        }
    }

    /// Parses a mode name, ignoring ASCII case.
    pub fn from_str(s: &str) -> (r: Result<Self, &'static str>)
        ensures
            ({
                let b = s.spec_bytes();
                match r {
                    Ok(UdpRelayMode::Native) => eq_ignore_ascii(b, "native".spec_bytes()),
                    Ok(UdpRelayMode::Quic) => eq_ignore_ascii(b, "quic".spec_bytes()),
                    Err(m) => !eq_ignore_ascii(b, "native".spec_bytes()) && !eq_ignore_ascii(
                        b,
                        "quic".spec_bytes(),
                    ) && m@ == "invalid UDP relay mode"@,
                }
            }),
    {
        if bytes_eq_ignore_ascii_case(s.as_bytes(), "native".as_bytes()) {
            Ok(UdpRelayMode::Native)
        } else if bytes_eq_ignore_ascii_case(s.as_bytes(), "quic".as_bytes()) {
            Ok(UdpRelayMode::Quic)
        } else {
            Err("invalid UDP relay mode")
        }
    }
}

/// The congestion controller selected in the configuration file.
#[derive(Clone, Copy, Debug, PartialEq, Eq)]
pub enum CongestionController {
    Bbr,
    Cubic,
    NewReno,
}

impl CongestionController {
    /// Parses a controller name, ignoring ASCII case.
    pub fn from_str(s: &str) -> (r: Result<Self, &'static str>)
        ensures
            ({
                let b = s.spec_bytes();
                match r {
                    Ok(CongestionController::Cubic) => eq_ignore_ascii(b, "cubic".spec_bytes()),
                    Ok(CongestionController::NewReno) => !eq_ignore_ascii(
                        b,
                        "cubic".spec_bytes(),
                    ) && (eq_ignore_ascii(b, "new_reno".spec_bytes()) || eq_ignore_ascii(
                        b,
                        "newreno".spec_bytes(),
                    )),
                    Ok(CongestionController::Bbr) => eq_ignore_ascii(b, "bbr".spec_bytes()),
                    Err(m) => !eq_ignore_ascii(b, "cubic".spec_bytes()) && !eq_ignore_ascii(
                        b,
                        "new_reno".spec_bytes(),
                    ) && !eq_ignore_ascii(b, "newreno".spec_bytes()) && !eq_ignore_ascii(
                        b,
                        "bbr".spec_bytes(),
                    ) && m@ == "invalid congestion control"@,
                }
            }),
    {
        if bytes_eq_ignore_ascii_case(s.as_bytes(), "cubic".as_bytes()) {
            Ok(CongestionController::Cubic)
        } else if bytes_eq_ignore_ascii_case(s.as_bytes(), "new_reno".as_bytes())
            || bytes_eq_ignore_ascii_case(s.as_bytes(), "newreno".as_bytes()) {
            Ok(CongestionController::NewReno)
        } else if bytes_eq_ignore_ascii_case(s.as_bytes(), "bbr".as_bytes()) {
            Ok(CongestionController::Bbr)
        } else {
            Err("invalid congestion control")
        }
    }
}

/// The congestion controller as the legacy command line named it.
#[derive(Clone, Copy, Debug, PartialEq, Eq)]
pub enum CongestionControl {
    Cubic,
    NewReno,
    Bbr,
}

impl CongestionControl {
    /// Parses a controller name, ignoring ASCII case.
    pub fn from_str(s: &str) -> (r: Result<Self, &'static str>)
        ensures
            ({
                let b = s.spec_bytes();
                match r {
                    Ok(CongestionControl::Cubic) => eq_ignore_ascii(b, "cubic".spec_bytes()),
                    Ok(CongestionControl::NewReno) => !eq_ignore_ascii(b, "cubic".spec_bytes())
                        && (eq_ignore_ascii(b, "new_reno".spec_bytes()) || eq_ignore_ascii(
                        b,
                        "newreno".spec_bytes(),
                    )),
                    Ok(CongestionControl::Bbr) => eq_ignore_ascii(b, "bbr".spec_bytes()),
                    Err(m) => !eq_ignore_ascii(b, "cubic".spec_bytes()) && !eq_ignore_ascii(
                        b,
                        "new_reno".spec_bytes(),
                    ) && !eq_ignore_ascii(b, "newreno".spec_bytes()) && !eq_ignore_ascii(
                        b,
                        "bbr".spec_bytes(),
                    ) && m@ == "invalid congestion control"@,
                }
            }),
    {
        if bytes_eq_ignore_ascii_case(s.as_bytes(), "cubic".as_bytes()) {
            Ok(CongestionControl::Cubic)
        } else if bytes_eq_ignore_ascii_case(s.as_bytes(), "new_reno".as_bytes())
            || bytes_eq_ignore_ascii_case(s.as_bytes(), "newreno".as_bytes()) {
            Ok(CongestionControl::NewReno)
        } else if bytes_eq_ignore_ascii_case(s.as_bytes(), "bbr".as_bytes()) {
            Ok(CongestionControl::Bbr)
        } else {
            Err("invalid congestion control")
        }
    }
}

/// A client-side server endpoint: a name for certificate validation, a
/// port, and optionally a fixed address that makes DNS unnecessary.
pub struct ServerAddr {
    pub domain: String,
    pub port: u16,
    pub ip: Option<IpAddress>,
}

impl ServerAddr {
    /// Bundles a server name, port and optional fixed address.
    pub fn new(domain: String, port: u16, ip: Option<IpAddress>) -> (r: Self)
        ensures
            r.domain@ == domain@,
            r.port == port,
            r.ip == ip,
    {
        ServerAddr { domain, port, ip }
    }

    /// The name presented for TLS certificate validation.
    pub fn server_name(&self) -> (r: &str)
        ensures
            r@ == self.domain@,
    {
        self.domain.as_str()
    }

    /// The fixed target, when one was given: with an address set, no DNS
    /// lookup is needed; without one, the caller resolves `server_name`.
    pub fn direct_target(&self) -> (r: Option<SocketAddress>)
        ensures
            match r {
                Some(sa) => self.ip is Some && sa == combine_ip_port(self.ip.unwrap(), self.port),
                None => self.ip is None,
            },
    {
        match &self.ip {
            Some(IpAddress::V4(ip)) => Some(SocketAddress::V4(*ip, self.port)),
            Some(IpAddress::V6(ip)) => Some(SocketAddress::V6(*ip, self.port)),
            None => None,
        }
    }
}

/// The socket address made of a host address and a port.
pub open spec fn combine_ip_port(ip: IpAddress, port: u16) -> SocketAddress {
    match ip {
        IpAddress::V4(b) => SocketAddress::V4(b, port),
        IpAddress::V6(b) => SocketAddress::V6(b, port),
    }
}

} // verus!
