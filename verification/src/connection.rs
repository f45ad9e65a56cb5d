//! The per-connection controller: the authentication gate and its timeout,
//! command admission, the association map with its race-safe creation and
//! idle removal, packet reassembly and the return path, traffic charging,
//! and the garbage-collection tick. The QUIC transport, sockets and timers
//! live outside the library; every decision about them is made here.

use std::collections::HashMap;

use vstd::prelude::*;

use crate::address::{Address, SocketAddress, wf_address};
use crate::auth::Authenticated;
use crate::codec::{Command, Packet};
use crate::errors::Error;
use crate::io::{clone_address, encode_packet_frame, packet_frame, pieces_view, split_fragments};
use crate::reassembly::{Reassembler, insert_transition};
use crate::session::{SendPath, UdpSession, session_idle};
use crate::stats::{Stats, charge_rx, charge_tx, connect_allowed};
use crate::utils::UdpRelayMode;

verus! {

broadcast use vstd::std_specs::hash::group_hash_axioms, vstd::seq_lib::group_seq_properties;

/// What the authentication-timeout task decided.
#[derive(Clone, Copy, Debug, PartialEq, Eq)]
pub enum AuthTimeoutOutcome {
    /// No authentication arrived in time: the connection was closed with
    /// the protocol error code, and the stats surface never saw it.
    ClosedUnauthenticated,
    /// The client authenticated and was counted in.
    Connected,
    /// The client authenticated but exceeded the per-user limit: it was
    /// counted, refused, and closed with the limit error code.
    LimitExceeded,
}

/// The authenticated uuid, if any, is a configured user.
pub open spec fn authenticated_user_known(auth: Option<u128>, users: Seq<u128>) -> bool {
    match auth {
        Some(u) => users.contains(u),
        None => true,
    }
}

/// One accepted QUIC connection: its stable id, authentication gate,
/// association map, most recent relay mode, reassembler, stream counters,
/// and close state.
pub struct Connection {
    pub id: u32,
    pub auth: Authenticated,
    pub udp_sessions: HashMap<u16, UdpSession>,
    pub session_keys: Vec<u16>,
    pub udp_relay_mode: Option<UdpRelayMode>,
    pub model: Reassembler,
    pub remote_uni_stream_cnt: u32,
    pub remote_bi_stream_cnt: u32,
    pub max_concurrent_uni_streams: u32,
    pub max_concurrent_bi_streams: u32,
    pub next_pkt_id: u16,
    pub closed: Option<u32>,
}

impl Connection {
    /// The association map.
    pub open spec fn sessions(&self) -> Map<u16, UdpSession> {
        Map::new(
            |a: u16| self.udp_sessions@.contains_key(a),
            |a: u16| self.udp_sessions@[a],
        )
    }

    /// The close code, once the connection is closed.
    pub open spec fn close_code(&self) -> Option<u32> {
        self.closed
    }

    /// Every entry of the association map is a live session under its own
    /// id: the map never holds a dead referent.
    pub open spec fn wf(&self) -> bool {
        &&& self.session_keys@.no_duplicates()
        &&& (forall|a: u16| self.udp_sessions@.contains_key(a) <==> self.session_keys@.contains(a))
        &&& (forall|a: u16|
            self.udp_sessions@.contains_key(a) ==> (#[trigger] self.udp_sessions@[a]).alive
                && self.udp_sessions@[a].assoc_id == a)
        &&& self.model.wf()
    }

    /// A freshly accepted connection: unauthenticated, no associations, no
    /// relay mode seen, empty reassembler, stream budgets at the initial
    /// concurrency, open.
    pub fn new(id: u32) -> (r: Self)
        ensures
            r.wf(),
            r.id == id,
            r.auth@ is None,
            r.sessions() =~= Map::<u16, UdpSession>::empty(),
            r.udp_relay_mode is None,
            r.model@ =~= Map::<u32, crate::reassembly::FragmentBufferView>::empty(),
            r.close_code() is None,
            r.remote_uni_stream_cnt == 0 && r.remote_bi_stream_cnt == 0,
            r.max_concurrent_uni_streams == crate::INIT_CONCURRENT_STREAMS,
            r.max_concurrent_bi_streams == crate::INIT_CONCURRENT_STREAMS,
    {
        Connection {
            id,
            auth: Authenticated::new(),
            udp_sessions: HashMap::new(),
            session_keys: Vec::new(),
            udp_relay_mode: None,
            model: Reassembler::new(),
            remote_uni_stream_cnt: 0,
            remote_bi_stream_cnt: 0,
            max_concurrent_uni_streams: crate::INIT_CONCURRENT_STREAMS,
            max_concurrent_bi_streams: crate::INIT_CONCURRENT_STREAMS,
            next_pkt_id: 0,
            closed: None,
        }
    }

    /// Whether the transport has reported closure.
    pub fn is_closed(&self) -> (r: bool)
        ensures
            r == (self.close_code() is Some),
    {
        self.closed.is_some()
    }

    /// Closes the connection with an error code.
    pub fn close(&mut self, code: u32)
        ensures
            *final(self) == (Connection { closed: Some(code), ..*old(self) }),
    {
        self.closed = Some(code);
    }

    /// Whether a command may be processed now: Authenticate always, every
    /// other command only once the peer has authenticated. Dispatch waits
    /// for authentication until this condition is met.
    pub fn admit_command(&self, cmd: &Command) -> (r: bool)
        ensures
            r == (cmd@ is Authenticate || self.auth@ is Some),
    {
        match cmd {
            Command::Authenticate(_) => true,
            _ => self.auth.get().is_some(),
        }
    }

    /// Handles an Authenticate command. A second Authenticate is a
    /// duplicated authentication; a uuid outside the user table, or a
    /// proof that does not match the token derived from that user's
    /// password, fails authentication; otherwise the state records the
    /// uuid, which is then always a configured user.
    pub fn authenticate(
        &mut self,
        users: &Vec<u128>,
        uuid: u128,
        token: &Vec<u8>,
        expected: &Vec<u8>,
    ) -> (r: Result<(), Error>)
        ensures
            *final(self) == (Connection { auth: final(self).auth, ..*old(self) }),
            match r {
                Ok(()) => old(self).auth@ is None && users@.contains(uuid) && token@ == expected@
                    && final(self).auth@ == Some(uuid),
                Err(e) => final(self).auth@ == old(self).auth@ && match e {
                    Error::DuplicatedAuth => old(self).auth@ is Some,
                    Error::AuthFailed(u) => u == uuid && old(self).auth@ is None && !(
                    users@.contains(uuid) && token@ == expected@),
                    _ => false,
                },
            },
            authenticated_user_known(old(self).auth@, users@) ==> authenticated_user_known(
                final(self).auth@,
                users@,
            ),
    {
        if self.auth.get().is_some() {
            return Err(Error::DuplicatedAuth);
        }
        if contains_id(users, uuid) && bytes_equal(token, expected) {
            self.auth.set(uuid);
            Ok(())
        } else {
            Err(Error::AuthFailed(uuid))
        }
    }

    /// The authentication-timeout task's decision, made when `auth_timeout`
    /// elapses. An unauthenticated connection is closed with the protocol
    /// error code and the stats surface never learns of it. An
    /// authenticated one is counted in; if that exceeds a nonzero per-user
    /// limit, it is closed with the limit error code.
    pub fn timeout_authenticate(
        &mut self,
        stats: &mut Stats,
        remote: SocketAddress,
        limit: u64,
    ) -> (r: AuthTimeoutOutcome)
        requires
            old(stats).wf(),
            match old(self).auth@ {
                Some(u) => old(stats)@.contains_key(u),
                None => true,
            },
        ensures
            final(stats).wf(),
            final(stats).user_ids() == old(stats).user_ids(),
            final(self).auth@ == old(self).auth@,
            match old(self).auth@ {
                None => r == AuthTimeoutOutcome::ClosedUnauthenticated && final(stats)@ == old(
                    stats,
                )@ && *final(self) == (Connection {
                    closed: Some(crate::ERROR_CODE_PROTOCOL),
                    ..*old(self)
                }),
                Some(u) => {
                    let allowed = connect_allowed(old(stats)@, u, limit);
                    &&& (r == AuthTimeoutOutcome::Connected <==> allowed)
                    &&& (allowed ==> *final(self) == *old(self))
                    &&& (!allowed ==> r == AuthTimeoutOutcome::LimitExceeded && *final(self) == (Connection { closed: Some(crate::ERROR_CODE_LIMIT), ..*old(self) }))
                    &&& final(stats)@.contains_key(u)
                    &&& final(stats)@[u].online == (if old(stats)@[u].online < u64::MAX {
                        (old(stats)@[u].online + 1) as u64
                    } else {
                        u64::MAX
                    })
                },
            },
    {
        match self.auth.get() {
            None => {
                self.close(crate::ERROR_CODE_PROTOCOL);
                AuthTimeoutOutcome::ClosedUnauthenticated
            },
            Some(uuid) => {
                let accepted = stats.client_connect(uuid, self.id, remote, limit);
                if accepted {
                    AuthTimeoutOutcome::Connected
                } else {
                    self.close(crate::ERROR_CODE_LIMIT);
                    AuthTimeoutOutcome::LimitExceeded
                }
            },
        }
    }

    /// The garbage-collection tick. On a closed connection it counts the
    /// client out (when one ever authenticated) and tells the task to
    /// exit; on a live one it sweeps stale packet fragments.
    pub fn collect_garbage(&mut self, stats: &mut Stats, now: u64, gc_lifetime: u64) -> (exited:
        bool)
        requires
            old(self).wf(),
            old(stats).wf(),
        ensures
            final(self).wf(),
            final(stats).wf(),
            final(stats).user_ids() == old(stats).user_ids(),
            exited == (old(self).close_code() is Some),
            if exited {
                *final(self) == *old(self) && (match old(self).auth@ {
                    Some(u) => old(stats)@.contains_key(u) ==> final(stats)@.contains_key(u)
                        && final(stats)@[u].online <= old(stats)@[u].online,
                    None => final(stats)@ == old(stats)@,
                })
            } else {
                final(stats)@ == old(stats)@ && *final(self) == (Connection {
                    model: final(self).model,
                    ..*old(self)
                }) && final(self).model@ == crate::reassembly::gc_result(
                    old(self).model@,
                    now,
                    gc_lifetime,
                )
            },
    {
        if self.is_closed() {
            match self.auth.get() {
                Some(uuid) => {
                    stats.client_disconnect(uuid, self.id);
                },
                None => {},
            }
            true
        } else {
            self.model.collect_garbage(now, gc_lifetime);
            false
        }
    }

    /// Handles one Packet command: records the relay mode the client used
    /// and feeds the fragment to the reassembler, returning the completed
    /// datagram when this fragment was the last missing one. Runs only
    /// after authentication.
    pub fn handle_packet(
        &mut self,
        mode: UdpRelayMode,
        pkt: &Packet,
        payload: Vec<u8>,
        now: u64,
    ) -> (r: Result<Option<(Vec<u8>, Address, u16)>, Error>)
        requires
            old(self).wf(),
            old(self).auth@ is Some,
        ensures
            final(self).wf(),
            final(self).auth@ == old(self).auth@,
            final(self).udp_relay_mode == Some(mode),
            *final(self) == (Connection {
                udp_relay_mode: Some(mode),
                model: final(self).model,
                ..*old(self)
            }),
            ({
                let step = insert_transition(
                    old(self).model@,
                    pkt.assoc_id,
                    pkt.pkt_id,
                    pkt.frag_total,
                    pkt.frag_id,
                    pkt.addr@,
                    payload@,
                    now,
                );
                &&& final(self).model@ =~= step.map
                &&& match r {
                    Ok(Some((p, a, aid))) => step.emit matches Some((pv, av, aidv)) && p@ == pv
                        && a@ == av && aid == aidv && !step.malformed,
                    Ok(None) => step.emit is None && !step.malformed,
                    Err(e) => step.malformed && e == Error::Malformed,
                }
            }),
    {
        self.udp_relay_mode = Some(mode);
        self.model.insert(
            pkt.assoc_id,
            pkt.pkt_id,
            pkt.frag_total,
            pkt.frag_id,
            clone_address(&pkt.addr),
            payload,
            now,
        )
    }

    /// Finds the association's session or creates it, race-safely: one
    /// session exists per association id afterwards, existing sessions are
    /// kept, and a new one has the IPv6 socket exactly when IPv6 UDP relay
    /// is enabled.
    pub fn get_or_create_session(&mut self, assoc_id: u16, udp_relay_ipv6: bool, now: u64)
        -> (created: bool)
        requires
            old(self).wf(),
        ensures
            final(self).wf(),
            *final(self) == (Connection {
                udp_sessions: final(self).udp_sessions,
                session_keys: final(self).session_keys,
                ..*old(self)
            }),
            created == !old(self).sessions().contains_key(assoc_id),
            final(self).sessions().contains_key(assoc_id),
            !created ==> final(self).sessions() == old(self).sessions(),
            created ==> final(self).sessions() =~= old(self).sessions().insert(
                assoc_id,
                UdpSession { assoc_id, ipv6: udp_relay_ipv6, alive: true, last_recv: now },
            ),
    {
        if self.udp_sessions.contains_key(&assoc_id) {
            assert(self.sessions() =~= old(self).sessions());
            return false;
        }
        let s = UdpSession::new(assoc_id, udp_relay_ipv6, now);
        proof {
            assert(!old(self).session_keys@.contains(assoc_id));
            crate::connection::lemma_push_no_duplicates_u16(old(self).session_keys@, assoc_id);
        }
        self.session_keys.push(assoc_id);
        self.udp_sessions.insert(assoc_id, s);
        proof {
            assert(self.sessions() =~= old(self).sessions().insert(assoc_id, s));
            assert forall|a: u16|
                self.udp_sessions@.contains_key(a) <==> self.session_keys@.contains(a) by {
                if a != assoc_id {
                    assert(self.session_keys@.contains(a) == old(self).session_keys@.contains(a));
                } else {
                    assert(self.session_keys@.last() == assoc_id);
                }
            }
        }
        true
    }

    /// The send path for one outbound datagram of an association: which
    /// socket family carries it, or the IPv6-disabled refusal, or an I/O
    /// error when the association is already gone.
    pub fn session_send_path(&self, assoc_id: u16, target: &SocketAddress) -> (r: Result<
        SendPath,
        Error,
    >)
        requires
            self.wf(),
        ensures
            match r {
                Ok(SendPath::V4) => self.sessions().contains_key(assoc_id) && target@ is V4,
                Ok(SendPath::V6) => self.sessions().contains_key(assoc_id) && target@ is V6
                    && self.sessions()[assoc_id].ipv6,
                Err(e) => match e {
                    Error::Io => !self.sessions().contains_key(assoc_id),
                    Error::Ipv6RelayDisabled(a) => a == *target && self.sessions().contains_key(
                        assoc_id,
                    ) && target@ is V6 && !self.sessions()[assoc_id].ipv6,
                    _ => false,
                },
            },
    {
        match self.udp_sessions.get(&assoc_id) {
            Some(s) => s.send_path(target),
            None => Err(Error::Io),
        }
    }

    /// Notes an inbound datagram on an association: its idle timer starts
    /// over.
    pub fn session_recv(&mut self, assoc_id: u16, now: u64)
        requires
            old(self).wf(),
        ensures
            final(self).wf(),
            *final(self) == (Connection {
                udp_sessions: final(self).udp_sessions,
                session_keys: final(self).session_keys,
                ..*old(self)
            }),
            !old(self).sessions().contains_key(assoc_id) ==> final(self).sessions() == old(
                self,
            ).sessions(),
            old(self).sessions().contains_key(assoc_id) ==> final(self).sessions() =~= old(
                self,
            ).sessions().insert(
                assoc_id,
                UdpSession { last_recv: now, ..old(self).sessions()[assoc_id] },
            ),
    {
        let s = self.udp_sessions.remove(&assoc_id);
        match s {
            Some(mut s) => {
                s.on_recv(now);
                self.udp_sessions.insert(assoc_id, s);
                proof {
                    assert forall|a: u16|
                        self.udp_sessions@.contains_key(a) <==> self.session_keys@.contains(a) by {}
                }
            },
            None => {
                assert(self.sessions() =~= old(self).sessions());
            },
        }
    }

    /// Removes an association whose idle timer fired: a session with no
    /// inbound datagram for `stream_timeout` leaves the map; a busy or
    /// absent one is untouched.
    pub fn expire_idle_session(&mut self, assoc_id: u16, now: u64, stream_timeout: u64)
        -> (removed: bool)
        requires
            old(self).wf(),
        ensures
            final(self).wf(),
            *final(self) == (Connection {
                udp_sessions: final(self).udp_sessions,
                session_keys: final(self).session_keys,
                ..*old(self)
            }),
            removed == (old(self).sessions().contains_key(assoc_id) && session_idle(
                old(self).sessions()[assoc_id],
                now,
                stream_timeout,
            )),
            removed ==> final(self).sessions() =~= old(self).sessions().remove(assoc_id),
            !removed ==> final(self).sessions() == old(self).sessions(),
    {
        let expired: bool;
        match self.udp_sessions.get(&assoc_id) {
            Some(s) => {
                expired = s.idle_expired(now, stream_timeout);
            },
            None => {
                expired = false;
            },
        }
        if expired {
            self.udp_sessions.remove(&assoc_id);
            remove_key_u16(&mut self.session_keys, assoc_id);
            proof {
                assert(self.sessions() =~= old(self).sessions().remove(assoc_id));
                assert forall|a: u16|
                    self.udp_sessions@.contains_key(a) <==> self.session_keys@.contains(a) by {}
            }
            true
        } else {
            assert(self.sessions() =~= old(self).sessions());
            false
        }
    }

    /// Handles a Dissociate command: the association leaves the map and
    /// its session is closed. Runs only after authentication.
    pub fn handle_dissociate(&mut self, assoc_id: u16) -> (closed_one: bool)
        requires
            old(self).wf(),
            old(self).auth@ is Some,
        ensures
            final(self).wf(),
            *final(self) == (Connection {
                udp_sessions: final(self).udp_sessions,
                session_keys: final(self).session_keys,
                ..*old(self)
            }),
            closed_one == old(self).sessions().contains_key(assoc_id),
            final(self).sessions() =~= old(self).sessions().remove(assoc_id),
            !final(self).sessions().contains_key(assoc_id),
    {
        let s = self.udp_sessions.remove(&assoc_id);
        match s {
            Some(_) => {
                remove_key_u16(&mut self.session_keys, assoc_id);
                proof {
                    assert forall|a: u16|
                        self.udp_sessions@.contains_key(a) <==> self.session_keys@.contains(a) by {}
                }
                true
            },
            None => {
                assert(self.sessions() =~= old(self).sessions().remove(assoc_id));
                false
            },
        }
    }

    /// Handles a Heartbeat command: a log record and nothing else. Runs
    /// only after authentication.
    pub fn handle_heartbeat(&self)
        requires
            self.auth@ is Some,
    {
    }

    /// Acknowledges a processed Authenticate command: a log record and
    /// nothing else; the state itself was set by `authenticate`.
    pub fn handle_authenticate(&self)
        requires
            self.auth@ is Some,
    {
    }

    /// Charges the byte totals of a finished TCP relay to the
    /// authenticated user.
    pub fn finish_connect(&self, stats: &mut Stats, tx: u64, rx: u64)
        requires
            old(stats).wf(),
            self.auth@ is Some,
        ensures
            final(stats).wf(),
            final(stats).user_ids() == old(stats).user_ids(),
            final(stats)@ == charge_rx(
                charge_tx(old(stats)@, self.auth@.unwrap(), tx),
                self.auth@.unwrap(),
                rx,
            ),
    {
        match self.auth.get() {
            Some(uuid) => {
                stats.traffic_tx(uuid, tx);
                stats.traffic_rx(uuid, rx);
            },
            None => {
                proof {
                    assert(false);
                }
            },
        }
    }

    /// Charges one outbound UDP datagram to the authenticated user, as the
    /// dispatcher does right before handing it to the association's socket.
    pub fn charge_packet_tx(&self, stats: &mut Stats, len: u64)
        requires
            old(stats).wf(),
            self.auth@ is Some,
        ensures
            final(stats).wf(),
            final(stats).user_ids() == old(stats).user_ids(),
            final(stats)@ == charge_tx(old(stats)@, self.auth@.unwrap(), len),
    {
        match self.auth.get() {
            Some(uuid) => {
                stats.traffic_tx(uuid, len);
            },
            None => {
                proof {
                    assert(false);
                }
            },
        }
    }

    /// Counts an accepted incoming unidirectional stream's task in.
    pub fn register_uni_stream(&mut self)
        ensures
            *final(self) == (Connection {
                remote_uni_stream_cnt: final(self).remote_uni_stream_cnt,
                ..*old(self)
            }),
            final(self).remote_uni_stream_cnt == (if old(self).remote_uni_stream_cnt < u32::MAX {
                (old(self).remote_uni_stream_cnt + 1) as u32
            } else {
                u32::MAX
            }),
    {
        self.remote_uni_stream_cnt = if self.remote_uni_stream_cnt < u32::MAX {
            self.remote_uni_stream_cnt + 1
        } else {
            u32::MAX
        };
    }

    /// Counts a finished unidirectional stream's task out.
    pub fn finish_uni_stream(&mut self)
        ensures
            *final(self) == (Connection {
                remote_uni_stream_cnt: final(self).remote_uni_stream_cnt,
                ..*old(self)
            }),
            final(self).remote_uni_stream_cnt == (if old(self).remote_uni_stream_cnt > 0 {
                (old(self).remote_uni_stream_cnt - 1) as u32
            } else {
                0u32
            }),
    {
        self.remote_uni_stream_cnt = if self.remote_uni_stream_cnt > 0 {
            self.remote_uni_stream_cnt - 1
        } else {
            0
        };
    }

    /// Counts an accepted incoming bidirectional stream's task in.
    pub fn register_bi_stream(&mut self)
        ensures
            *final(self) == (Connection {
                remote_bi_stream_cnt: final(self).remote_bi_stream_cnt,
                ..*old(self)
            }),
            final(self).remote_bi_stream_cnt == (if old(self).remote_bi_stream_cnt < u32::MAX {
                (old(self).remote_bi_stream_cnt + 1) as u32
            } else {
                u32::MAX
            }),
    {
        self.remote_bi_stream_cnt = if self.remote_bi_stream_cnt < u32::MAX {
            self.remote_bi_stream_cnt + 1
        } else {
            u32::MAX
        };
    }

    /// Counts a finished bidirectional stream's task out.
    pub fn finish_bi_stream(&mut self)
        ensures
            *final(self) == (Connection {
                remote_bi_stream_cnt: final(self).remote_bi_stream_cnt,
                ..*old(self)
            }),
            final(self).remote_bi_stream_cnt == (if old(self).remote_bi_stream_cnt > 0 {
                (old(self).remote_bi_stream_cnt - 1) as u32
            } else {
                0u32
            }),
    {
        self.remote_bi_stream_cnt = if self.remote_bi_stream_cnt > 0 {
            self.remote_bi_stream_cnt - 1
        } else {
            0
        };
    }

    /// The return path for one UDP datagram received from the Internet:
    /// charges the bytes to the user and builds the wire frames that carry
    /// the packet back, fragmented in the mode the client most recently
    /// used. In native mode the datagram is split to fit QUIC datagrams of
    /// `max_frag_size` payload bytes; in quic mode one unidirectional
    /// stream carries it whole.
    pub fn relay_packet(
        &mut self,
        stats: &mut Stats,
        pkt: &Vec<u8>,
        addr: &Address,
        assoc_id: u16,
        max_frag_size: u16,
    ) -> (r: Vec<Vec<u8>>)
        requires
            old(stats).wf(),
            old(self).auth@ is Some,
            old(self).udp_relay_mode is Some,
            wf_address(addr@),
            max_frag_size >= 1,
            pkt@.len() <= 255 * (max_frag_size as int),
            pkt@.len() <= u16::MAX,
        ensures
            final(stats).wf(),
            final(stats).user_ids() == old(stats).user_ids(),
            final(stats)@ == charge_rx(
                old(stats)@,
                old(self).auth@.unwrap(),
                pkt@.len() as u64,
            ),
            *final(self) == (Connection { next_pkt_id: final(self).next_pkt_id, ..*old(self) }),
            r@.len() >= 1,
            old(self).udp_relay_mode == Some(UdpRelayMode::Quic) ==> r@.len() == 1 && r@[0]@
                == packet_frame(assoc_id, old(self).next_pkt_id, 1, 0, addr@, pkt@),
            old(self).udp_relay_mode == Some(UdpRelayMode::Native) ==> exists|pieces: Seq<Seq<u8>>|
                {
                    &&& crate::reassembly::concat_frag_payloads(pieces) == pkt@
                    &&& pieces.len() == r@.len() <= 255
                    &&& (forall|i: int|
                        0 <= i < r@.len() ==> (#[trigger] r@[i])@ == packet_frame(
                            assoc_id,
                            old(self).next_pkt_id,
                            r@.len() as u8,
                            i as u8,
                            if i == 0 {
                                addr@
                            } else {
                                crate::address::AddressView::Unspecified
                            },
                            pieces[i],
                        ))
                },
    {
        let uuid = match self.auth.get() {
            Some(u) => u,
            None => {
                proof {
                    assert(false);
                }
                0
            },
        };
        stats.traffic_rx(uuid, pkt.len() as u64);
        let pkt_id = self.next_pkt_id;
        self.next_pkt_id = if self.next_pkt_id < u16::MAX {
            self.next_pkt_id + 1
        } else {
            0
        };
        let mode = match self.udp_relay_mode {
            Some(m) => m,
            None => {
                proof {
                    assert(false);
                }
                UdpRelayMode::Native
            },
        };
        match mode {
            UdpRelayMode::Quic => {
                let frame = encode_packet_frame(assoc_id, pkt_id, 1, 0, addr, pkt);
                let mut out: Vec<Vec<u8>> = Vec::new();
                out.push(frame);
                out
            },
            UdpRelayMode::Native => {
                let pieces = split_fragments(pkt, max_frag_size);
                let total = pieces.len() as u8;
                let mut out: Vec<Vec<u8>> = Vec::new();
                let mut i: usize = 0;
                while i < pieces.len()
                    invariant
                        wf_address(addr@),
                        pieces@.len() <= 255,
                        total == pieces@.len() as u8,
                        forall|j: int|
                            0 <= j < pieces@.len() ==> (#[trigger] pieces@[j])@.len()
                                <= max_frag_size as int,
                        max_frag_size as int <= u16::MAX,
                        i <= pieces@.len(),
                        out@.len() == i,
                        forall|j: int|
                            0 <= j < i ==> (#[trigger] out@[j])@ == packet_frame(
                                assoc_id,
                                pkt_id,
                                total,
                                j as u8,
                                if j == 0 {
                                    addr@
                                } else {
                                    crate::address::AddressView::Unspecified
                                },
                                pieces@[j]@,
                            ),
                    decreases pieces@.len() - i,
                {
                    let frame = if i == 0 {
                        encode_packet_frame(assoc_id, pkt_id, total, i as u8, addr, &pieces[i])
                    } else {
                        encode_packet_frame(
                            assoc_id,
                            pkt_id,
                            total,
                            i as u8,
                            &Address::Unspecified,
                            &pieces[i],
                        )
                    };
                    out.push(frame);
                    i = i + 1;
                }
                proof {
                    let pieces_model = pieces_view(pieces@);
                    assert forall|j: int|
                        0 <= j < out@.len() implies (#[trigger] out@[j])@ == packet_frame(
                        assoc_id,
                        pkt_id,
                        out@.len() as u8,
                        j as u8,
                        if j == 0 {
                            addr@
                        } else {
                            crate::address::AddressView::Unspecified
                        },
                        pieces_model[j],
                    ) by {
                        assert(pieces_model[j] == pieces@[j]@);
                    }
                }
                out
            },
        }
    }
}

/// How a relay target is turned into a socket address: no lookup for a
/// raw address, a DNS lookup for a domain name; an absent address cannot
/// be resolved at all.
pub enum ResolvePlan {
    Direct(SocketAddress),
    Lookup(Vec<u8>, u16),
}

/// Decides how to resolve a relay target. The lookup itself, when one is
/// needed, happens outside the library.
pub fn resolve_plan(addr: &Address) -> (r: Result<ResolvePlan, Error>)
    ensures
        match r {
            Ok(ResolvePlan::Direct(sa)) => addr@ matches crate::address::AddressView::Socket(v)
                && sa@ == v,
            Ok(ResolvePlan::Lookup(name, port)) => addr@ matches crate::address::AddressView::Domain(
                n,
                p,
            ) && name@ == n && port == p,
            Err(e) => e == Error::Resolve && addr@ is Unspecified,
        },
{
    match addr {
        Address::Unspecified => Err(Error::Resolve),
        Address::Domain(name, port) => Ok(
            ResolvePlan::Lookup(vstd::slice::slice_to_vec(name.as_slice()), *port),
        ),
        Address::Socket(sa) => Ok(ResolvePlan::Direct(*sa)),
    }
}

/// Finds a user id in the configured table.
pub fn contains_id(users: &Vec<u128>, uuid: u128) -> (r: bool)
    ensures
        r == users@.contains(uuid),
{
    let mut i: usize = 0;
    while i < users.len()
        invariant
            i <= users@.len(),
            forall|j: int| 0 <= j < i ==> users@[j] != uuid,
        decreases users@.len() - i,
    {
        if users[i] == uuid {
            return true;
        }
        i = i + 1;
    }
    proof {
        if users@.contains(uuid) {
            let j = choose|j: int| 0 <= j < users@.len() && users@[j] == uuid;
            assert(users@[j] != uuid);
        }
    }
    false
}

/// Exact byte-vector equality.
pub fn bytes_equal(a: &Vec<u8>, b: &Vec<u8>) -> (r: bool)
    ensures
        r == (a@ == b@),
{
    if a.len() != b.len() {
        return false;
    }
    let mut i: usize = 0;
    while i < a.len()
        invariant
            a@.len() == b@.len(),
            i <= a@.len(),
            forall|j: int| 0 <= j < i ==> a@[j] == b@[j],
        decreases a@.len() - i,
    {
        if a[i] != b[i] {
            return false;
        }
        i = i + 1;
    }
    proof {
        assert(a@ =~= b@);
    }
    true
}

/// A duplicate-free id list stays duplicate free when a fresh id is
/// pushed.
pub proof fn lemma_push_no_duplicates_u16(s: Seq<u16>, x: u16)
    requires
        s.no_duplicates(),
        !s.contains(x),
    ensures
        s.push(x).no_duplicates(),
{
    let t = s.push(x);
    assert forall|p: int, q: int| 0 <= p < q < t.len() implies t[p] != t[q] by {
        if q < s.len() {
            assert(t[p] == s[p] && t[q] == s[q]);
        } else {
            assert(t[q] == x);
            assert(t[p] == s[p]);
            assert(s.contains(s[p]));
        }
    }
}

/// Removes the one occurrence of `k` from a duplicate-free id list.
fn remove_key_u16(keys: &mut Vec<u16>, k: u16)
    requires
        old(keys)@.no_duplicates(),
        old(keys)@.contains(k),
    ensures
        final(keys)@.no_duplicates(),
        !final(keys)@.contains(k),
        forall|k2: u16| k2 != k ==> final(keys)@.contains(k2) == old(keys)@.contains(k2),
{
    let ghost s = old(keys)@;
    let mut i: usize = 0;
    let n = keys.len();
    while i < n
        invariant
            s == old(keys)@,
            keys@ == s,
            n == s.len(),
            i <= n,
            s.contains(k),
            s.no_duplicates(),
            forall|j: int| 0 <= j < i ==> s[j] != k,
        decreases n - i,
    {
        if keys[i] == k {
            keys.remove(i);
            proof {
                let t = keys@;
                s.remove_ensures(i as int);
                assert(t == s.remove(i as int));
                assert(t.len() == s.len() - 1);
                assert(t.no_duplicates()) by {
                    assert forall|p: int, q: int| 0 <= p < q < t.len() implies t[p] != t[q] by {
                        let sp: int = if p < i {
                            p
                        } else {
                            p + 1
                        };
                        let sq: int = if q < i {
                            q
                        } else {
                            q + 1
                        };
                        assert(t[p] == s[sp]);
                        assert(t[q] == s[sq]);
                        assert(sp < sq);
                    }
                }
                assert(!t.contains(k)) by {
                    if t.contains(k) {
                        let j = choose|j: int| 0 <= j < t.len() && t[j] == k;
                        let sj: int = if j < i {
                            j
                        } else {
                            j + 1
                        };
                        assert(s[sj] == k);
                        assert(s[i as int] == k);
                        assert(sj != i);
                        assert(false);
                    }
                }
                assert forall|k2: u16| k2 != k implies t.contains(k2) == s.contains(k2) by {
                    if t.contains(k2) {
                        let j = choose|j: int| 0 <= j < t.len() && t[j] == k2;
                        let sj: int = if j < i {
                            j
                        } else {
                            j + 1
                        };
                        assert(s[sj] == k2);
                        assert(s.contains(k2));
                    }
                    if s.contains(k2) {
                        let j = choose|j: int| 0 <= j < s.len() && s[j] == k2;
                        assert(j != i);
                        if j < i {
                            assert(t[j] == k2);
                        } else {
                            assert(t[j - 1] == k2);
                        }
                        assert(t.contains(k2));
                    }
                }
            }
            return ;
        }
        i = i + 1;
    }
    proof {
        let j = choose|j: int| 0 <= j < s.len() && s[j] == k;
        assert(s[j] != k);
        assert(false);
    }
}

} // verus!
