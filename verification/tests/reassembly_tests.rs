//! Packet reassembly behaviour: out-of-order fragments produce exactly one
//! packet with bytes in fragment-index order; disagreeing totals are a
//! protocol error; out-of-range fragments are dropped; stale buffers are
//! swept.

use tuic_server::address::{Address, SocketAddress};
use tuic_server::errors::Error;
use tuic_server::reassembly::Reassembler;

fn target() -> Address {
    Address::Socket(SocketAddress::V4([127, 0, 0, 1], 9))
}

#[test]
fn two_fragments_out_of_order() {
    // Fragment 1 of 2 arrives first, then fragment 0 carrying the address:
    // exactly one packet comes out, bytes in index order.
    let mut r = Reassembler::new();
    let first = r
        .insert(0x0001, 0x0001, 2, 1, Address::Unspecified, b"world".to_vec(), 10)
        .unwrap();
    assert!(first.is_none());
    let second = r.insert(0x0001, 0x0001, 2, 0, target(), b"hello ".to_vec(), 11).unwrap();
    let (payload, addr, assoc) = second.expect("last fragment completes the packet");
    assert_eq!(payload, b"hello world".to_vec());
    assert_eq!(addr, target());
    assert_eq!(assoc, 0x0001);
}

#[test]
fn single_fragment_completes_immediately() {
    let mut r = Reassembler::new();
    let out = r.insert(3, 9, 1, 0, target(), b"abc".to_vec(), 0).unwrap();
    let (payload, addr, assoc) = out.unwrap();
    assert_eq!(payload, b"abc".to_vec());
    assert_eq!(addr, target());
    assert_eq!(assoc, 3);
}

#[test]
fn three_fragment_permutation() {
    let mut r = Reassembler::new();
    assert!(r.insert(1, 1, 3, 2, Address::Unspecified, b"c".to_vec(), 0).unwrap().is_none());
    assert!(r.insert(1, 1, 3, 0, target(), b"a".to_vec(), 0).unwrap().is_none());
    let out = r.insert(1, 1, 3, 1, Address::Unspecified, b"b".to_vec(), 0).unwrap();
    let (payload, _, _) = out.unwrap();
    assert_eq!(payload, b"abc".to_vec());
}

#[test]
fn disagreeing_total_is_malformed() {
    let mut r = Reassembler::new();
    assert!(r.insert(1, 1, 3, 0, target(), b"a".to_vec(), 0).unwrap().is_none());
    assert!(matches!(
        r.insert(1, 1, 2, 1, Address::Unspecified, b"b".to_vec(), 0),
        Err(Error::Malformed)
    ));
}

#[test]
fn out_of_range_fragment_is_dropped() {
    // A fragment index at or past the total is dropped and the connection
    // keeps going: the buffer is untouched and completes as usual.
    let mut r = Reassembler::new();
    assert!(r.insert(1, 1, 2, 2, Address::Unspecified, b"x".to_vec(), 0).unwrap().is_none());
    assert!(r.insert(1, 1, 2, 0, target(), b"a".to_vec(), 0).unwrap().is_none());
    let out = r.insert(1, 1, 2, 1, Address::Unspecified, b"b".to_vec(), 0).unwrap();
    assert_eq!(out.unwrap().0, b"ab".to_vec());
}

#[test]
fn distinct_packets_do_not_mix() {
    let mut r = Reassembler::new();
    assert!(r.insert(1, 1, 2, 0, target(), b"a".to_vec(), 0).unwrap().is_none());
    assert!(r.insert(1, 2, 2, 0, target(), b"x".to_vec(), 0).unwrap().is_none());
    let one = r.insert(1, 1, 2, 1, Address::Unspecified, b"b".to_vec(), 0).unwrap();
    assert_eq!(one.unwrap().0, b"ab".to_vec());
    let two = r.insert(1, 2, 2, 1, Address::Unspecified, b"y".to_vec(), 0).unwrap();
    assert_eq!(two.unwrap().0, b"xy".to_vec());
}

#[test]
fn garbage_collection_drops_stale_buffers() {
    let mut r = Reassembler::new();
    // A fragment arrives at time 0; the sweep at time 20000 with a 15000 ms
    // lifetime drops the buffer, so the other fragment starts a new one and
    // nothing is emitted.
    assert!(r.insert(1, 1, 2, 0, target(), b"a".to_vec(), 0).unwrap().is_none());
    r.collect_garbage(20000, 15000);
    assert!(r.insert(1, 1, 2, 1, Address::Unspecified, b"b".to_vec(), 20001).unwrap().is_none());
}

#[test]
fn garbage_collection_keeps_young_buffers() {
    let mut r = Reassembler::new();
    assert!(r.insert(1, 1, 2, 0, target(), b"a".to_vec(), 10000).unwrap().is_none());
    r.collect_garbage(20000, 15000);
    let out = r.insert(1, 1, 2, 1, Address::Unspecified, b"b".to_vec(), 20001).unwrap();
    assert_eq!(out.unwrap().0, b"ab".to_vec());
}
