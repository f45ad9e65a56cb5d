//! Connection controller behaviour: authentication and its gate, the
//! timeout decision with the per-user limit, the association lifecycle,
//! the send-path family check, and the UDP return path.

use tuic_server::address::{Address, SocketAddress};
use tuic_server::auth::Authenticated;
use tuic_server::codec::{decode_command, take_payload, Command, Packet};
use tuic_server::connection::{resolve_plan, AuthTimeoutOutcome, Connection, ResolvePlan};
use tuic_server::errors::Error;
use tuic_server::reassembly::Reassembler;
use tuic_server::session::SendPath;
use tuic_server::stats::Stats;
use tuic_server::utils::UdpRelayMode;
use tuic_server::{ERROR_CODE_LIMIT, ERROR_CODE_PROTOCOL};

const USER: u128 = 0x11111111_1111_1111_1111_111111111111u128;

fn remote() -> SocketAddress {
    SocketAddress::V4([10, 0, 0, 1], 40000)
}

fn users() -> Vec<u128> {
    vec![USER]
}

#[test]
fn gate_starts_pending_and_records_the_uuid() {
    let mut a = Authenticated::new();
    assert_eq!(a.get(), None);
    a.set(USER);
    assert_eq!(a.get(), Some(USER));
}

#[test]
fn authenticate_accepts_a_known_user_with_the_right_token() {
    let mut c = Connection::new(1);
    let token = vec![9u8; 32];
    assert!(c.authenticate(&users(), USER, &token, &token.clone()).is_ok());
    assert_eq!(c.auth.get(), Some(USER));
}

#[test]
fn authenticate_rejects_an_unknown_user() {
    let mut c = Connection::new(1);
    let token = vec![9u8; 32];
    let r = c.authenticate(&users(), 42, &token, &token.clone());
    assert!(matches!(r, Err(Error::AuthFailed(42))));
    assert_eq!(c.auth.get(), None);
}

#[test]
fn authenticate_rejects_a_wrong_token() {
    let mut c = Connection::new(1);
    let r = c.authenticate(&users(), USER, &vec![9u8; 32], &vec![8u8; 32]);
    assert!(matches!(r, Err(Error::AuthFailed(_))));
    assert_eq!(c.auth.get(), None);
}

#[test]
fn second_authenticate_is_duplicated_and_keeps_the_stored_uuid() {
    // Two Authenticate commands with the same valid uuid: the second is a
    // duplicated authentication, the stored uuid does not change, and the
    // dispatcher closes the connection with the protocol error code.
    let mut c = Connection::new(1);
    let token = vec![9u8; 32];
    assert!(c.authenticate(&users(), USER, &token, &token.clone()).is_ok());
    let r = c.authenticate(&users(), USER, &token, &token.clone());
    assert!(matches!(r, Err(Error::DuplicatedAuth)));
    assert_eq!(c.auth.get(), Some(USER));
    c.close(ERROR_CODE_PROTOCOL);
    assert!(c.is_closed());
}

#[test]
fn commands_wait_on_the_gate() {
    let c = Connection::new(1);
    let connect = Command::Connect(tuic_server::codec::Connect { addr: Address::Unspecified });
    let auth = Command::Authenticate(tuic_server::codec::Authenticate {
        uuid: USER,
        token: vec![0u8; 32],
    });
    assert!(!c.admit_command(&connect));
    assert!(c.admit_command(&auth));
    let mut c = c;
    let token = vec![9u8; 32];
    c.authenticate(&users(), USER, &token, &token.clone()).unwrap();
    assert!(c.admit_command(&connect));
}

#[test]
fn auth_timeout_closes_an_unauthenticated_connection() {
    // No authentication within the timeout: close with the protocol error
    // code and never tell the stats surface.
    let mut c = Connection::new(1);
    let mut stats = Stats::new(&users());
    let r = c.timeout_authenticate(&mut stats, remote(), 0);
    assert_eq!(r, AuthTimeoutOutcome::ClosedUnauthenticated);
    assert!(c.is_closed());
    assert!(stats.list_online().is_empty());
}

#[test]
fn auth_timeout_counts_an_authenticated_connection_in() {
    let mut c = Connection::new(1);
    let mut stats = Stats::new(&users());
    let token = vec![9u8; 32];
    c.authenticate(&users(), USER, &token, &token.clone()).unwrap();
    let r = c.timeout_authenticate(&mut stats, remote(), 0);
    assert_eq!(r, AuthTimeoutOutcome::Connected);
    assert!(!c.is_closed());
    assert_eq!(stats.list_online(), vec![(USER, 1)]);
}

#[test]
fn second_connection_over_the_limit_is_closed() {
    // With a per-user limit of one, the second concurrent connection of the
    // same uuid is refused right after its successful authentication and
    // closed with the limit error code.
    let mut stats = Stats::new(&users());
    let token = vec![9u8; 32];

    let mut first = Connection::new(1);
    first.authenticate(&users(), USER, &token, &token.clone()).unwrap();
    assert_eq!(first.timeout_authenticate(&mut stats, remote(), 1), AuthTimeoutOutcome::Connected);

    let mut second = Connection::new(2);
    second.authenticate(&users(), USER, &token, &token.clone()).unwrap();
    let r = second.timeout_authenticate(&mut stats, remote(), 1);
    assert_eq!(r, AuthTimeoutOutcome::LimitExceeded);
    assert!(second.is_closed());
    let _ = ERROR_CODE_LIMIT;
}

#[test]
fn gc_on_a_closed_connection_counts_the_client_out() {
    let mut c = Connection::new(1);
    let mut stats = Stats::new(&users());
    let token = vec![9u8; 32];
    c.authenticate(&users(), USER, &token, &token.clone()).unwrap();
    c.timeout_authenticate(&mut stats, remote(), 0);
    assert_eq!(stats.list_online(), vec![(USER, 1)]);
    c.close(ERROR_CODE_PROTOCOL);
    let exited = c.collect_garbage(&mut stats, 0, 15000);
    assert!(exited);
    assert!(stats.list_online().is_empty());
}

#[test]
fn sessions_are_created_once_and_dropped_on_dissociate() {
    let mut c = Connection::new(1);
    let token = vec![9u8; 32];
    c.authenticate(&users(), USER, &token, &token.clone()).unwrap();
    assert!(c.get_or_create_session(7, true, 0));
    assert!(!c.get_or_create_session(7, true, 5));
    assert!(c.handle_dissociate(7));
    assert!(!c.handle_dissociate(7));
}

#[test]
fn ipv6_target_with_relay_disabled_is_refused_and_the_session_stays() {
    // A Packet targeting an IPv6 address with udp_relay_ipv6 off: the send
    // is refused with the dedicated error and the session remains healthy.
    let mut c = Connection::new(1);
    let token = vec![9u8; 32];
    c.authenticate(&users(), USER, &token, &token.clone()).unwrap();
    c.get_or_create_session(7, false, 0);
    let v6 = SocketAddress::V6([0u8; 16], 9);
    let r = c.session_send_path(7, &v6);
    assert!(matches!(r, Err(Error::Ipv6RelayDisabled(_))));
    // The session is still there and still serves IPv4 targets.
    let v4 = SocketAddress::V4([127, 0, 0, 1], 9);
    assert!(matches!(c.session_send_path(7, &v4), Ok(SendPath::V4)));
}

#[test]
fn ipv6_target_with_relay_enabled_uses_the_v6_socket() {
    let mut c = Connection::new(1);
    let token = vec![9u8; 32];
    c.authenticate(&users(), USER, &token, &token.clone()).unwrap();
    c.get_or_create_session(7, true, 0);
    let v6 = SocketAddress::V6([0u8; 16], 9);
    assert!(matches!(c.session_send_path(7, &v6), Ok(SendPath::V6)));
}

#[test]
fn idle_session_is_removed_from_the_map() {
    // No inbound datagram for the stream timeout: the session leaves its
    // connection's map; an active one stays.
    let mut c = Connection::new(1);
    let token = vec![9u8; 32];
    c.authenticate(&users(), USER, &token, &token.clone()).unwrap();
    c.get_or_create_session(7, true, 0);
    assert!(!c.expire_idle_session(7, 59999, 60000));
    c.session_recv(7, 30000);
    assert!(!c.expire_idle_session(7, 89999, 60000));
    assert!(c.expire_idle_session(7, 90000, 60000));
    assert!(!c.expire_idle_session(7, 90000, 60000));
    // Gone: sending through it now fails as an I/O error.
    let v4 = SocketAddress::V4([127, 0, 0, 1], 9);
    assert!(matches!(c.session_send_path(7, &v4), Err(Error::Io)));
}

#[test]
fn packet_command_records_the_relay_mode_and_reassembles() {
    let mut c = Connection::new(1);
    let token = vec![9u8; 32];
    c.authenticate(&users(), USER, &token, &token.clone()).unwrap();
    let target = Address::Socket(SocketAddress::V4([127, 0, 0, 1], 9));
    let frag1 = Packet {
        assoc_id: 0x0001,
        pkt_id: 0x0001,
        frag_total: 2,
        frag_id: 1,
        size: 5,
        addr: Address::Unspecified,
    };
    let frag0 = Packet {
        assoc_id: 0x0001,
        pkt_id: 0x0001,
        frag_total: 2,
        frag_id: 0,
        size: 6,
        addr: target.clone(),
    };
    assert!(c
        .handle_packet(UdpRelayMode::Native, &frag1, b"world".to_vec(), 0)
        .unwrap()
        .is_none());
    let out = c.handle_packet(UdpRelayMode::Native, &frag0, b"hello ".to_vec(), 1).unwrap();
    let (payload, addr, assoc) = out.unwrap();
    assert_eq!(payload, b"hello world".to_vec());
    assert_eq!(addr, target);
    assert_eq!(assoc, 0x0001);
    assert_eq!(c.udp_relay_mode, Some(UdpRelayMode::Native));
}

#[test]
fn relay_back_uses_one_stream_frame_in_quic_mode() {
    let mut c = Connection::new(1);
    let mut stats = Stats::new(&users());
    let token = vec![9u8; 32];
    c.authenticate(&users(), USER, &token, &token.clone()).unwrap();
    c.udp_relay_mode = Some(UdpRelayMode::Quic);
    let target = Address::Socket(SocketAddress::V4([127, 0, 0, 1], 9));
    let frames = c.relay_packet(&mut stats, &b"reply".to_vec(), &target, 7, 1200);
    assert_eq!(frames.len(), 1);
    let (cmd, n) = decode_command(&frames[0]).unwrap();
    match cmd {
        Command::Packet(p) => {
            assert_eq!(p.assoc_id, 7);
            assert_eq!(p.frag_total, 1);
            assert_eq!(p.frag_id, 0);
            assert_eq!(p.size, 5);
            assert_eq!(p.addr, target);
        },
        other => panic!("expected a Packet header, got {:?}", other),
    }
    assert_eq!(take_payload(&frames[0], n, 5).unwrap(), b"reply".to_vec());
    assert_eq!(stats.list_traffic(), vec![(USER, 0, 5)]);
}

#[test]
fn relay_back_fragments_in_native_mode_and_the_fragments_reassemble() {
    // The return path fragments a large datagram for QUIC datagram
    // carriage; decoding every frame and feeding it to a reassembler gives
    // the original datagram back, in order, in one piece.
    let mut c = Connection::new(1);
    let mut stats = Stats::new(&users());
    let token = vec![9u8; 32];
    c.authenticate(&users(), USER, &token, &token.clone()).unwrap();
    c.udp_relay_mode = Some(UdpRelayMode::Native);
    let target = Address::Socket(SocketAddress::V4([127, 0, 0, 1], 9));
    let payload: Vec<u8> = (0..=255u8).cycle().take(3000).collect();
    let frames = c.relay_packet(&mut stats, &payload, &target, 7, 1200);
    assert_eq!(frames.len(), 3);
    let mut r = Reassembler::new();
    let mut emitted = None;
    for frame in &frames {
        let (cmd, n) = decode_command(frame).unwrap();
        let p = match cmd {
            Command::Packet(p) => p,
            other => panic!("expected a Packet header, got {:?}", other),
        };
        let body = take_payload(frame, n, p.size).unwrap();
        let out = r
            .insert(p.assoc_id, p.pkt_id, p.frag_total, p.frag_id, p.addr, body, 0)
            .unwrap();
        if let Some(done) = out {
            assert!(emitted.is_none(), "only the last fragment may emit");
            emitted = Some(done);
        }
    }
    let (back, addr, assoc) = emitted.expect("the last fragment emits the packet");
    assert_eq!(back, payload);
    assert_eq!(addr, target);
    assert_eq!(assoc, 7);
}

#[test]
fn resolve_plan_matches_the_address_kind() {
    assert!(matches!(resolve_plan(&Address::Unspecified), Err(Error::Resolve)));
    match resolve_plan(&Address::Domain(b"example.com".to_vec(), 80)).unwrap() {
        ResolvePlan::Lookup(name, port) => {
            assert_eq!(name, b"example.com".to_vec());
            assert_eq!(port, 80);
        },
        other => panic!("expected a lookup plan, got direct {:?}", matches!(other, ResolvePlan::Direct(_))),
    }
    let sa = SocketAddress::V4([1, 2, 3, 4], 5);
    match resolve_plan(&Address::Socket(sa)).unwrap() {
        ResolvePlan::Direct(got) => assert_eq!(got, sa),
        _ => panic!("expected a direct plan"),
    }
}

#[test]
fn udp_egress_is_charged_to_the_user() {
    let mut c = Connection::new(1);
    let mut stats = Stats::new(&users());
    let token = vec![9u8; 32];
    c.authenticate(&users(), USER, &token, &token.clone()).unwrap();
    c.charge_packet_tx(&mut stats, 11);
    assert_eq!(stats.list_traffic(), vec![(USER, 11, 0)]);
}

#[test]
fn stream_counters_rise_and_fall() {
    let mut c = Connection::new(1);
    c.register_uni_stream();
    c.register_uni_stream();
    c.register_bi_stream();
    assert_eq!(c.remote_uni_stream_cnt, 2);
    assert_eq!(c.remote_bi_stream_cnt, 1);
    c.finish_uni_stream();
    c.finish_bi_stream();
    c.finish_bi_stream();
    assert_eq!(c.remote_uni_stream_cnt, 1);
    assert_eq!(c.remote_bi_stream_cnt, 0);
}
