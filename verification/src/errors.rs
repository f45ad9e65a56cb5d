//! The error kinds the core surfaces, and how they map to connection
//! close codes.

use vstd::prelude::*;

use crate::address::SocketAddress;

verus! {

/// Every failure the core can report. `AuthFailed` carries the uuid that
/// failed; `Ipv6RelayDisabled` carries the refused IPv6 target.
#[derive(Clone, Debug)]
pub enum Error {
    ConfigInvalid,
    TlsSetup,
    SocketBind,
    Handshake,
    Malformed,
    DuplicatedAuth,
    AuthFailed(u128),
    Ipv6RelayDisabled(SocketAddress),
    Resolve,
    Connect,
    Io,
    Transport,
    TransportClosed,
    InvalidMaxIdleTime,
}

impl Error {
    /// Trivial errors are logged at debug instead of warn: the transport
    /// closed cleanly, a stream was reset by the peer, or plain EOF.
    pub fn is_trivial(&self) -> (r: bool)
        ensures
            r == (*self is TransportClosed),
    {
        matches!(self, Error::TransportClosed)
    }

    /// Whether this error closes the whole connection, and with which
    /// code: only a malformed frame and the two authentication failures
    /// do, with the protocol error code; every other per-command error
    /// ends its own task and leaves the connection running.
    pub fn close_code(&self) -> (r: Option<u32>)
        ensures
            r == (match *self {
                Error::Malformed | Error::DuplicatedAuth | Error::AuthFailed(_) => Some(
                    crate::ERROR_CODE_PROTOCOL,
                ),
                _ => None::<u32>,
            }),
    {
        match self {
            Error::Malformed | Error::DuplicatedAuth | Error::AuthFailed(_) => Some(
                crate::ERROR_CODE_PROTOCOL,
            ),
            _ => None,
        }
    }

    /// A short description, in place of a `Display` implementation.
    pub fn message(&self) -> &'static str {
        match self {
            Error::ConfigInvalid => "invalid configuration",
            Error::TlsSetup => "TLS setup failure",
            Error::SocketBind => "failed to bind socket",
            Error::Handshake => "handshake failure",
            Error::Malformed => "malformed protocol frame",
            Error::DuplicatedAuth => "duplicated authentication",
            Error::AuthFailed(_) => "authentication failed",
            Error::Ipv6RelayDisabled(_) => "IPv6 UDP relay is disabled",
            Error::Resolve => "no address resolved",
            Error::Connect => "connect failure",
            Error::Io => "I/O failure",
            Error::Transport => "transport failure",
            Error::TransportClosed => "transport closed",
            Error::InvalidMaxIdleTime => "invalid max idle time",
        }
    }
}

} // verus!
