//! Admin/stats behaviour: monotone traffic counters with read-and-reset,
//! online counting with the kick list, the TCP exchange accounting, and
//! the bearer check.

use tuic_server::address::SocketAddress;
use tuic_server::io::{ExchangeEvent, ExchangeState};
use tuic_server::stats::{bearer_rejects, Stats};

const U1: u128 = 0x11111111_1111_1111_1111_111111111111u128;
const U2: u128 = 0x22222222_2222_2222_2222_222222222222u128;

fn remote(n: u8) -> SocketAddress {
    SocketAddress::V4([10, 0, 0, n], 40000)
}

#[test]
fn traffic_counters_are_monotone_and_reset_returns_the_prior_values() {
    let mut s = Stats::new(&vec![U1, U2]);
    assert!(s.list_traffic().is_empty());
    s.traffic_tx(U1, 100);
    s.traffic_rx(U1, 7);
    s.traffic_tx(U1, 20);
    assert_eq!(s.list_traffic(), vec![(U1, 120, 7)]);
    let prior = s.reset_traffic();
    assert_eq!(prior, vec![(U1, 120, 7)]);
    assert!(s.list_traffic().is_empty());
    s.traffic_rx(U2, 1);
    assert_eq!(s.list_traffic(), vec![(U2, 0, 1)]);
}

#[test]
fn traffic_for_an_unknown_user_changes_nothing() {
    let mut s = Stats::new(&vec![U1]);
    s.traffic_tx(U2, 100);
    assert!(s.list_traffic().is_empty());
}

#[test]
fn kick_lists_every_live_client_and_disconnects_empty_the_count() {
    // Three live connections of one user: the kick returns all three (the
    // caller closes each with the kick error code); once they disconnect,
    // the user no longer appears online.
    let mut s = Stats::new(&vec![U1]);
    assert!(s.client_connect(U1, 1, remote(1), 0));
    assert!(s.client_connect(U1, 2, remote(2), 0));
    assert!(s.client_connect(U1, 3, remote(3), 0));
    assert_eq!(s.list_online(), vec![(U1, 3)]);
    let kicked = s.kick(U1);
    assert_eq!(kicked.len(), 3);
    assert_eq!(tuic_server::ERROR_CODE_KICKED, 6002);
    for (conn_id, _) in kicked {
        s.client_disconnect(U1, conn_id);
    }
    assert!(s.list_online().is_empty());
    assert!(s.kick(U1).is_empty());
}

#[test]
fn the_limit_refuses_the_connection_beyond_it() {
    let mut s = Stats::new(&vec![U1]);
    assert!(s.client_connect(U1, 1, remote(1), 2));
    assert!(s.client_connect(U1, 2, remote(2), 2));
    assert!(!s.client_connect(U1, 3, remote(3), 2));
    // The refused client never entered the kick list.
    assert_eq!(s.kick(U1).len(), 2);
}

#[test]
fn exchange_accounting_feeds_the_traffic_counters() {
    // A client writes an 18-byte request, the target answers with a few
    // bytes, then closes: the user is charged at least 18 sent and at
    // least 1 received byte.
    let mut ex = ExchangeState::new();
    ex.step(ExchangeEvent::ClientBytes(18));
    ex.step(ExchangeEvent::TargetBytes(5));
    ex.step(ExchangeEvent::TargetEof);
    assert!(ex.done);
    assert!(!ex.failed);
    assert!(ex.tx >= 18 && ex.rx >= 1);

    let mut s = Stats::new(&vec![U1]);
    s.traffic_tx(U1, ex.tx);
    s.traffic_rx(U1, ex.rx);
    assert_eq!(s.list_traffic(), vec![(U1, 18, 5)]);
}

#[test]
fn exchange_failure_is_recorded() {
    let mut ex = ExchangeState::new();
    ex.step(ExchangeEvent::ClientBytes(3));
    ex.step(ExchangeEvent::Failed);
    assert!(ex.done && ex.failed);
    assert_eq!(ex.tx, 3);
}

#[test]
fn bearer_check_protects_secured_endpoints() {
    // With a secret configured, a missing token is refused exactly like a
    // wrong one; without a secret the endpoints are open.
    assert!(!bearer_rejects("", Some("anything")));
    assert!(!bearer_rejects("", None));
    assert!(bearer_rejects("secret", None));
    assert!(!bearer_rejects("secret", Some("secret")));
    assert!(bearer_rejects("secret", Some("wrong")));
}
