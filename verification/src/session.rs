//! One UDP association: the pair of outbound sockets it stands for, the
//! family-selecting send path, and the idle-timeout lifecycle. The sockets
//! themselves live outside the library; the session records which exist
//! and decides where each datagram goes and when the association dies.

use vstd::prelude::*;

use crate::address::SocketAddress;
use crate::errors::Error;

verus! {

/// Which outbound socket a datagram leaves on.
#[derive(Clone, Copy, Debug, PartialEq, Eq)]
pub enum SendPath {
    V4,
    V6,
}

/// The state of one UDP association: its id, whether the optional
/// IPv6-only socket exists, whether the session is still open, and when a
/// datagram last arrived from outside.
#[derive(Clone, Debug)]
pub struct UdpSession {
    pub assoc_id: u16,
    pub ipv6: bool,
    pub alive: bool,
    pub last_recv: u64,
}

/// A session with no datagram for `stream_timeout` milliseconds is idle.
pub open spec fn session_idle(s: UdpSession, now: u64, stream_timeout: u64) -> bool {
    s.last_recv + stream_timeout <= now
}

impl UdpSession {
    /// A fresh association: the IPv4 socket always exists; the IPv6-only
    /// socket exists exactly when IPv6 UDP relay is enabled.
    pub fn new(assoc_id: u16, udp_relay_ipv6: bool, now: u64) -> (r: Self)
        ensures
            r.assoc_id == assoc_id,
            r.ipv6 == udp_relay_ipv6,
            r.alive,
            r.last_recv == now,
    {
        UdpSession { assoc_id, ipv6: udp_relay_ipv6, alive: true, last_recv: now }
    }

    /// Selects the socket for an outbound datagram by the target's family.
    /// An IPv6 target with IPv6 relay disabled is refused, and the session
    /// itself is untouched and stays healthy.
    pub fn send_path(&self, addr: &SocketAddress) -> (r: Result<SendPath, Error>)
        ensures
            match r {
                Ok(SendPath::V4) => addr@ is V4,
                Ok(SendPath::V6) => addr@ is V6 && self.ipv6,
                Err(e) => addr@ is V6 && !self.ipv6 && e == Error::Ipv6RelayDisabled(*addr),
            },
    {
        match addr {
            SocketAddress::V4(_, _) => Ok(SendPath::V4),
            SocketAddress::V6(_, _) => {
                if self.ipv6 {
                    Ok(SendPath::V6)
                } else {
                    Err(Error::Ipv6RelayDisabled(*addr))
                }
            },
        }
    }

    /// Notes an inbound datagram: the idle timer starts over.
    pub fn on_recv(&mut self, now: u64)
        ensures
            *final(self) == (UdpSession { last_recv: now, ..*old(self) }),
    {
        self.last_recv = now;
    }

    /// Whether the idle timer has fired: no inbound datagram for
    /// `stream_timeout`.
    pub fn idle_expired(&self, now: u64, stream_timeout: u64) -> (r: bool)
        ensures
            r == session_idle(*self, now, stream_timeout),
    {
        now >= stream_timeout && self.last_recv <= now - stream_timeout
    }

    /// Closes the session: the sockets are dropped and the pump exits.
    pub fn close(&mut self)
        ensures
            *final(self) == (UdpSession { alive: false, ..*old(self) }),
    {
        self.alive = false;
    }
}

} // verus!
