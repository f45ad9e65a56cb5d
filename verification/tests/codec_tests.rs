//! Wire codec behaviour: encode/decode round trips for every command and
//! address family, and the malformed inputs the decoder must refuse.

use tuic_server::address::{decode_address, encode_address, Address, SocketAddress};
use tuic_server::codec::{
    decode_command, encode_command, take_payload, Authenticate, Command, Connect, Dissociate,
    Packet,
};
use tuic_server::errors::Error;

fn round_trip_address(a: Address) {
    let mut out = Vec::new();
    encode_address(&a, &mut out);
    let (back, n) = decode_address(&out).expect("encoded address must decode");
    assert_eq!(n, out.len());
    assert_eq!(back, a);
}

#[test]
fn address_round_trip_none() {
    round_trip_address(Address::Unspecified);
}

#[test]
fn address_round_trip_domain() {
    round_trip_address(Address::Domain(b"example.com".to_vec(), 80));
    round_trip_address(Address::Domain(Vec::new(), 0));
}

#[test]
fn address_round_trip_v4() {
    round_trip_address(Address::Socket(SocketAddress::V4([127, 0, 0, 1], 9)));
}

#[test]
fn address_round_trip_v6() {
    round_trip_address(Address::Socket(SocketAddress::V6(
        [0, 1, 2, 3, 4, 5, 6, 7, 8, 9, 10, 11, 12, 13, 14, 15],
        443,
    )));
}

#[test]
fn address_rejects_unknown_tag() {
    assert!(decode_address(&[0x77, 0, 0]).is_none());
    assert!(decode_address(&[]).is_none());
}

#[test]
fn address_rejects_truncation() {
    // A domain address announcing 11 name bytes, cut short.
    assert!(decode_address(&[0x00, 11, b'e', b'x']).is_none());
    assert!(decode_address(&[0x01, 127, 0, 0]).is_none());
}

fn round_trip_command(c: Command) -> usize {
    let mut out = Vec::new();
    encode_command(&c, &mut out);
    let (back, n) = decode_command(&out).expect("encoded command must decode");
    assert_eq!(n, out.len());
    assert_eq!(back, c);
    n
}

#[test]
fn command_round_trip_authenticate() {
    let c = Command::Authenticate(Authenticate {
        uuid: 0x11111111_1111_1111_1111_111111111111u128,
        token: vec![7u8; 32],
    });
    let n = round_trip_command(c);
    assert_eq!(n, 50);
}

#[test]
fn command_round_trip_connect() {
    round_trip_command(Command::Connect(Connect {
        addr: Address::Domain(b"example.com".to_vec(), 80),
    }));
}

#[test]
fn command_round_trip_packet() {
    round_trip_command(Command::Packet(Packet {
        assoc_id: 0x0001,
        pkt_id: 0x0001,
        frag_total: 2,
        frag_id: 0,
        size: 5,
        addr: Address::Socket(SocketAddress::V4([127, 0, 0, 1], 9)),
    }));
}

#[test]
fn command_round_trip_dissociate_and_heartbeat() {
    assert_eq!(round_trip_command(Command::Dissociate(Dissociate { assoc_id: 7 })), 4);
    assert_eq!(round_trip_command(Command::Heartbeat), 2);
}

#[test]
fn command_rejects_bad_version() {
    // A Heartbeat with the wrong version byte.
    assert!(matches!(decode_command(&[0x04, 0x04]), Err(Error::Malformed)));
}

#[test]
fn command_rejects_unknown_type() {
    assert!(matches!(decode_command(&[0x05, 0x09]), Err(Error::Malformed)));
}

#[test]
fn command_rejects_truncation() {
    let c = Command::Authenticate(Authenticate { uuid: 1, token: vec![0u8; 32] });
    let mut out = Vec::new();
    encode_command(&c, &mut out);
    out.truncate(49);
    assert!(matches!(decode_command(&out), Err(Error::Malformed)));
}

#[test]
fn command_decode_ignores_trailing_payload() {
    // A Packet header followed by its payload bytes: the decoder reports
    // where the payload starts.
    let c = Command::Packet(Packet {
        assoc_id: 1,
        pkt_id: 2,
        frag_total: 1,
        frag_id: 0,
        size: 3,
        addr: Address::Unspecified,
    });
    let mut out = Vec::new();
    encode_command(&c, &mut out);
    let header_len = out.len();
    out.extend_from_slice(&[9, 8, 7]);
    let (back, n) = decode_command(&out).unwrap();
    assert_eq!(n, header_len);
    assert_eq!(back, c);
    let payload = take_payload(&out, n, 3).unwrap();
    assert_eq!(payload, vec![9, 8, 7]);
    assert!(matches!(take_payload(&out, n, 4), Err(Error::Malformed)));
}

#[test]
fn error_kinds_describe_themselves() {
    assert_eq!(Error::Malformed.message(), "malformed protocol frame");
    assert!(Error::TransportClosed.is_trivial());
    assert!(!Error::Io.is_trivial());
    assert!(!Error::DuplicatedAuth.is_trivial());
}

#[test]
fn only_protocol_and_auth_errors_close_the_connection() {
    assert_eq!(Error::Malformed.close_code(), Some(6000));
    assert_eq!(Error::DuplicatedAuth.close_code(), Some(6000));
    assert_eq!(Error::AuthFailed(7).close_code(), Some(6000));
    assert_eq!(Error::Io.close_code(), None);
    assert_eq!(Error::Resolve.close_code(), None);
    assert_eq!(Error::TransportClosed.close_code(), None);
}
