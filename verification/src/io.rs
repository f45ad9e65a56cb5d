//! The relay data paths as state machines. The byte exchange of a TCP
//! relay is a loop of transfer events whose accounting is decided here,
//! while the reads and writes themselves happen outside the library. The
//! UDP return path fragments a datagram so each piece fits one QUIC
//! carrier.

use vstd::prelude::*;

use crate::address::{Address, wf_address};
use crate::codec::{Command, Packet, encode_command, encoded_command, wf_command};
use crate::reassembly::concat_frag_payloads;

verus! {

/// What one step of a TCP relay observed: bytes moved in one direction,
/// EOF from one side, or a failed read or write.
#[derive(Clone, Copy, Debug, PartialEq, Eq)]
pub enum ExchangeEvent {
    ClientBytes(u64),
    TargetBytes(u64),
    ClientEof,
    TargetEof,
    Failed,
}

/// The accounting of one TCP relay: bytes from the client so far (tx),
/// bytes to the client so far (rx), whether the exchange is over, and
/// whether it ended in an error.
#[derive(Clone, Copy, Debug, PartialEq, Eq)]
pub struct ExchangeState {
    pub tx: u64,
    pub rx: u64,
    pub done: bool,
    pub failed: bool,
}

impl ExchangeState {
    /// A relay that has moved nothing yet.
    pub fn new() -> (r: Self)
        ensures
            r == (ExchangeState { tx: 0, rx: 0, done: false, failed: false }),
    {
        ExchangeState { tx: 0, rx: 0, done: false, failed: false }
    }

    /// Accounts one transfer event. Counters saturate and never decrease;
    /// EOF from either side ends the exchange cleanly; a failure ends it
    /// with the error recorded.
    pub fn step(&mut self, ev: ExchangeEvent)
        requires
            !old(self).done,
        ensures
            final(self).tx >= old(self).tx,
            final(self).rx >= old(self).rx,
            match ev {
                ExchangeEvent::ClientBytes(n) => *final(self) == (ExchangeState {
                    tx: if old(self).tx + n <= u64::MAX {
                        (old(self).tx + n) as u64
                    } else {
                        u64::MAX
                    },
                    ..*old(self)
                }),
                ExchangeEvent::TargetBytes(n) => *final(self) == (ExchangeState {
                    rx: if old(self).rx + n <= u64::MAX {
                        (old(self).rx + n) as u64
                    } else {
                        u64::MAX
                    },
                    ..*old(self)
                }),
                ExchangeEvent::ClientEof | ExchangeEvent::TargetEof => *final(self) == (ExchangeState { done: true, ..*old(self) }),
                ExchangeEvent::Failed => *final(self) == (ExchangeState {
                    done: true,
                    failed: true,
                    ..*old(self)
                }),
            },
    {
        match ev {
            ExchangeEvent::ClientBytes(n) => {
                self.tx = if self.tx <= u64::MAX - n {
                    self.tx + n
                } else {
                    u64::MAX
                };
            },
            ExchangeEvent::TargetBytes(n) => {
                self.rx = if self.rx <= u64::MAX - n {
                    self.rx + n
                } else {
                    u64::MAX
                };
            },
            ExchangeEvent::ClientEof | ExchangeEvent::TargetEof => {
                self.done = true;
            },
            ExchangeEvent::Failed => {
                self.done = true;
                self.failed = true;
            },
        }
    }
}

/// The models of a list of fragment payloads.
pub open spec fn pieces_view(v: Seq<Vec<u8>>) -> Seq<Seq<u8>> {
    Seq::new(v.len(), |i: int| v[i]@)
}

/// Splits a datagram into fragments of at most `max_size` bytes each: the
/// pieces joined in order are the datagram, no piece is empty except for
/// an empty datagram's single piece, and the piece count fits the wire's
/// one-byte fragment total.
pub fn split_fragments(payload: &Vec<u8>, max_size: u16) -> (r: Vec<Vec<u8>>)
    requires
        max_size >= 1,
        payload@.len() <= 255 * (max_size as int),
    ensures
        concat_frag_payloads(pieces_view(r@)) == payload@,
        1 <= r@.len() <= 255,
        forall|i: int| 0 <= i < r@.len() ==> (#[trigger] r@[i])@.len() <= max_size as int,
{
    let mut out: Vec<Vec<u8>> = Vec::new();
    let mut at: usize = 0;
    if payload.len() == 0 {
        let empty_piece: Vec<u8> = Vec::new();
        out.push(empty_piece);
        proof {
            assert(out@ == Seq::<Vec<u8>>::empty().push(empty_piece));
            assert(out@[0] == empty_piece);
            let pv = pieces_view(out@);
            assert(pv.len() == 1);
            assert(pv.drop_last() =~= Seq::<Seq<u8>>::empty());
            assert(pv[0] == out@[0]@);
            assert(out@[0]@ =~= Seq::<u8>::empty());
            assert(pv.last() =~= Seq::<u8>::empty());
            assert(concat_frag_payloads(Seq::<Seq<u8>>::empty()) =~= Seq::<u8>::empty());
            assert(concat_frag_payloads(pv) =~= payload@);
        }
        return out;
    }
    while at < payload.len()
        invariant
            max_size >= 1,
            at <= payload@.len(),
            payload@.len() <= 255 * (max_size as int),
            concat_frag_payloads(pieces_view(out@)) == payload@.subrange(0, at as int),
            forall|i: int| 0 <= i < out@.len() ==> (#[trigger] out@[i])@.len() <= max_size as int,
            at == out@.len() * (max_size as int) || (at == payload@.len() && (out@.len() - 1) * (
            max_size as int) < at <= out@.len() * (max_size as int)),
            out@.len() <= 255,
        decreases payload@.len() - at,
    {
        let take = if payload.len() - at < max_size as usize {
            payload.len() - at
        } else {
            max_size as usize
        };
        proof {
            assert(at == out@.len() * (max_size as int)) by {
                if at == payload@.len() {
                    assert(false);
                }
            }
        }
        let ghost out0 = out@;
        let piece = vstd::slice::slice_to_vec(
            vstd::slice::slice_subrange(payload.as_slice(), at, at + take),
        );
        out.push(piece);
        at = at + take;
        proof {
            let pv = pieces_view(out@);
            assert(out@.drop_last() =~= out0);
            assert(pv.drop_last() =~= pieces_view(out0));
            assert(pv.last() == payload@.subrange(at - take, at as int));
            assert(payload@.subrange(0, at as int) =~= payload@.subrange(0, at - take)
                + payload@.subrange(at - take, at as int));
            assert(concat_frag_payloads(pv) == payload@.subrange(0, at as int));
            let n = out@.len() as int;
            let m = max_size as int;
            if take == max_size as usize {
                assert(at == n * m) by (nonlinear_arith)
                    requires
                        at == (n - 1) * m + m,
                {}
                assert(n <= 255) by (nonlinear_arith)
                    requires
                        n * m <= 255 * m,
                        m >= 1,
                        n >= 0,
                {}
            } else {
                assert(at == payload@.len());
                assert((n - 1) * m < at) by {
                    assert(take >= 1);
                }
                assert(at <= n * m) by (nonlinear_arith)
                    requires
                        at <= (n - 1) * m + m,
                {}
                assert(n - 1 < 255) by (nonlinear_arith)
                    requires
                        (n - 1) * m < 255 * m,
                        m >= 1,
                {}
            }
        }
    }
    proof {
        assert(payload@.subrange(0, payload@.len() as int) =~= payload@);
    }
    out
}

/// The wire bytes of one Packet carrier: the encoded header followed by
/// the fragment's payload.
pub open spec fn packet_frame(
    assoc_id: u16,
    pkt_id: u16,
    frag_total: u8,
    frag_id: u8,
    addr: crate::address::AddressView,
    piece: Seq<u8>,
) -> Seq<u8> {
    encoded_command(
        crate::codec::CommandView::Packet(
            crate::codec::PacketView {
                assoc_id,
                pkt_id,
                frag_total,
                frag_id,
                size: piece.len() as u16,
                addr,
            },
        ),
    ) + piece
}

/// Builds one Packet carrier: header plus payload bytes.
pub fn encode_packet_frame(
    assoc_id: u16,
    pkt_id: u16,
    frag_total: u8,
    frag_id: u8,
    addr: &Address,
    piece: &Vec<u8>,
) -> (r: Vec<u8>)
    requires
        wf_address(addr@),
        piece@.len() <= u16::MAX,
    ensures
        r@ == packet_frame(assoc_id, pkt_id, frag_total, frag_id, addr@, piece@),
{
    let mut out: Vec<u8> = Vec::new();
    let header = Command::Packet(
        Packet {
            assoc_id,
            pkt_id,
            frag_total,
            frag_id,
            size: piece.len() as u16,
            addr: clone_address(addr),
        },
    );
    assert(wf_command(header@));
    encode_command(&header, &mut out);
    crate::address::push_bytes(&mut out, piece.as_slice());
    out
}

/// Copies an address value.
pub fn clone_address(a: &Address) -> (r: Address)
    ensures
        r@ == a@,
{
    match a {
        Address::Unspecified => Address::Unspecified,
        Address::Domain(name, port) => Address::Domain(
            vstd::slice::slice_to_vec(name.as_slice()),
            *port,
        ),
        Address::Socket(sa) => Address::Socket(*sa),
    }
}

} // verus!
