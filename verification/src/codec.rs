//! The TUIC v5 command codec: every command the server accepts, its byte
//! encoding, the parser of that encoding, and proofs that the two agree.
//! Commands arrive at the head of unidirectional streams, bidirectional
//! streams, or datagrams; `decode_command` reports how many bytes the
//! header consumed so the caller can find the payload that follows.

use vstd::prelude::*;

use crate::address::{
    Address, AddressView, be16, encoded_address, parse_address, u16_of_be, wf_address,
    decode_address, encode_address, lemma_address_round_trip, push_be16, push_bytes, read_be16,
};
use crate::errors::Error;

verus! {

/// Protocol version byte of every command header.
pub const CMD_VERSION: u8 = 0x05;

/// Command type byte: authenticate the connection.
pub const CMD_TYPE_AUTHENTICATE: u8 = 0x00;

/// Command type byte: relay a TCP connection.
pub const CMD_TYPE_CONNECT: u8 = 0x01;

/// Command type byte: relay one UDP packet fragment.
pub const CMD_TYPE_PACKET: u8 = 0x02;

/// Command type byte: drop a UDP association.
pub const CMD_TYPE_DISSOCIATE: u8 = 0x03;

/// Command type byte: keep-alive, empty body.
pub const CMD_TYPE_HEARTBEAT: u8 = 0x04;

/// The Authenticate command: the client's uuid and the 32-byte proof
/// derived from its password by the TLS keying-material exporter.
#[derive(Clone, Debug, PartialEq, Eq)]
pub struct Authenticate {
    pub uuid: u128,
    pub token: Vec<u8>,
}

/// The Connect command: requests TCP relay to `addr`; the stream body is
/// the proxied payload in both directions.
#[derive(Clone, Debug, PartialEq, Eq)]
pub struct Connect {
    pub addr: Address,
}

/// The Packet command header: one fragment of a UDP datagram within an
/// association. Only fragment 0 carries the real target address.
#[derive(Clone, Debug, PartialEq, Eq)]
pub struct Packet {
    pub assoc_id: u16,
    pub pkt_id: u16,
    pub frag_total: u8,
    pub frag_id: u8,
    pub size: u16,
    pub addr: Address,
}

/// The Dissociate command: drops one UDP association.
#[derive(Clone, Copy, Debug, PartialEq, Eq)]
pub struct Dissociate {
    pub assoc_id: u16,
}

/// Every command the server accepts.
#[derive(Clone, Debug, PartialEq, Eq)]
pub enum Command {
    Authenticate(Authenticate),
    Connect(Connect),
    Packet(Packet),
    Dissociate(Dissociate),
    Heartbeat,
}

/// Mathematical model of an Authenticate command.
pub struct AuthenticateView {
    pub uuid: u128,
    pub token: Seq<u8>,
}

/// Mathematical model of a Packet command header.
pub struct PacketView {
    pub assoc_id: u16,
    pub pkt_id: u16,
    pub frag_total: u8,
    pub frag_id: u8,
    pub size: u16,
    pub addr: AddressView,
}

/// Mathematical model of a command.
pub enum CommandView {
    Authenticate(AuthenticateView),
    Connect(AddressView),
    Packet(PacketView),
    Dissociate(u16),
    Heartbeat,
}

impl View for Authenticate {
    type V = AuthenticateView;

    open spec fn view(&self) -> AuthenticateView {
        AuthenticateView { uuid: self.uuid, token: self.token@ }
    }
}

impl View for Packet {
    type V = PacketView;

    open spec fn view(&self) -> PacketView {
        PacketView {
            assoc_id: self.assoc_id,
            pkt_id: self.pkt_id,
            frag_total: self.frag_total,
            frag_id: self.frag_id,
            size: self.size,
            addr: self.addr@,
        }
    }
}

impl View for Command {
    type V = CommandView;

    open spec fn view(&self) -> CommandView {
        match self {
            Command::Authenticate(a) => CommandView::Authenticate(a@),
            Command::Connect(c) => CommandView::Connect(c.addr@),
            Command::Packet(p) => CommandView::Packet(p@),
            Command::Dissociate(d) => CommandView::Dissociate(d.assoc_id),
            Command::Heartbeat => CommandView::Heartbeat,
        }
    }
}

/// A well-formed command: the proof has exactly 32 bytes and any carried
/// address is well formed.
pub open spec fn wf_command(c: CommandView) -> bool {
    match c {
        CommandView::Authenticate(a) => a.token.len() == 32,
        CommandView::Connect(addr) => wf_address(addr),
        CommandView::Packet(p) => wf_address(p.addr),
        CommandView::Dissociate(_) => true,
        CommandView::Heartbeat => true,
    }
}

/// Big-endian bytes of a 128-bit value, most significant first.
pub open spec fn be_u128(x: u128) -> Seq<u8> {
    Seq::new(16, |i: int| (x >> (((15 - i) * 8) as u128)) as u8)
}

/// The 128-bit value read from big-endian bytes, folding from the front.
pub open spec fn u128_of_be(s: Seq<u8>) -> u128
    decreases s.len(),
{
    if s.len() == 0 {
        0u128
    } else {
        (u128_of_be(s.drop_last()) << 8) | (s.last() as u128)
    }
}

/// Reading back the big-endian bytes of a 128-bit value gives the value.
pub proof fn lemma_be_u128_round(x: u128)
    ensures
        u128_of_be(be_u128(x)) == x,
{
    let s = be_u128(x);
    let b0 = s[0];
    let b1 = s[1];
    let b2 = s[2];
    let b3 = s[3];
    let b4 = s[4];
    let b5 = s[5];
    let b6 = s[6];
    let b7 = s[7];
    let b8 = s[8];
    let b9 = s[9];
    let b10 = s[10];
    let b11 = s[11];
    let b12 = s[12];
    let b13 = s[13];
    let b14 = s[14];
    let b15 = s[15];
    let v0: u128 = 0;
    let v1: u128 = (v0 << 8) | (b0 as u128);
    let v2: u128 = (v1 << 8) | (b1 as u128);
    let v3: u128 = (v2 << 8) | (b2 as u128);
    let v4: u128 = (v3 << 8) | (b3 as u128);
    let v5: u128 = (v4 << 8) | (b4 as u128);
    let v6: u128 = (v5 << 8) | (b5 as u128);
    let v7: u128 = (v6 << 8) | (b6 as u128);
    let v8: u128 = (v7 << 8) | (b7 as u128);
    let v9: u128 = (v8 << 8) | (b8 as u128);
    let v10: u128 = (v9 << 8) | (b9 as u128);
    let v11: u128 = (v10 << 8) | (b10 as u128);
    let v12: u128 = (v11 << 8) | (b11 as u128);
    let v13: u128 = (v12 << 8) | (b12 as u128);
    let v14: u128 = (v13 << 8) | (b13 as u128);
    let v15: u128 = (v14 << 8) | (b14 as u128);
    let v16: u128 = (v15 << 8) | (b15 as u128);
    assert forall|k: int| 1 <= k <= 16 implies #[trigger] u128_of_be(s.subrange(0, k)) == (
    u128_of_be(s.subrange(0, k - 1)) << 8) | (s[k - 1] as u128) by {
        let p = s.subrange(0, k);
        assert(p.len() == k);
        assert(p.drop_last() =~= s.subrange(0, k - 1));
        assert(p.last() == s[k - 1]);
    }
    assert(u128_of_be(s.subrange(0, 0)) == 0) by {
        assert(s.subrange(0, 0).len() == 0);
    }
    assert(u128_of_be(s.subrange(0, 16)) == v16);
    assert(s.subrange(0, 16) =~= s);
    assert(v16 == x) by (bit_vector)
        requires
            b0 == (x >> 120) as u8,
            b1 == (x >> 112) as u8,
            b2 == (x >> 104) as u8,
            b3 == (x >> 96) as u8,
            b4 == (x >> 88) as u8,
            b5 == (x >> 80) as u8,
            b6 == (x >> 72) as u8,
            b7 == (x >> 64) as u8,
            b8 == (x >> 56) as u8,
            b9 == (x >> 48) as u8,
            b10 == (x >> 40) as u8,
            b11 == (x >> 32) as u8,
            b12 == (x >> 24) as u8,
            b13 == (x >> 16) as u8,
            b14 == (x >> 8) as u8,
            b15 == (x >> 0) as u8,
            v0 == 0u128,
            v1 == (v0 << 8) | (b0 as u128),
            v2 == (v1 << 8) | (b1 as u128),
            v3 == (v2 << 8) | (b2 as u128),
            v4 == (v3 << 8) | (b3 as u128),
            v5 == (v4 << 8) | (b4 as u128),
            v6 == (v5 << 8) | (b5 as u128),
            v7 == (v6 << 8) | (b6 as u128),
            v8 == (v7 << 8) | (b7 as u128),
            v9 == (v8 << 8) | (b8 as u128),
            v10 == (v9 << 8) | (b9 as u128),
            v11 == (v10 << 8) | (b10 as u128),
            v12 == (v11 << 8) | (b11 as u128),
            v13 == (v12 << 8) | (b12 as u128),
            v14 == (v13 << 8) | (b13 as u128),
            v15 == (v14 << 8) | (b14 as u128),
            v16 == (v15 << 8) | (b15 as u128),
    ;
}

/// The byte encoding of a command header.
pub open spec fn encoded_command(c: CommandView) -> Seq<u8> {
    match c {
        CommandView::Authenticate(a) => seq![CMD_VERSION, CMD_TYPE_AUTHENTICATE] + be_u128(a.uuid)
            + a.token,
        CommandView::Connect(addr) => seq![CMD_VERSION, CMD_TYPE_CONNECT] + encoded_address(addr),
        CommandView::Packet(p) => seq![CMD_VERSION, CMD_TYPE_PACKET] + be16(p.assoc_id) + be16(
            p.pkt_id,
        ) + seq![p.frag_total, p.frag_id] + be16(p.size) + encoded_address(p.addr),
        CommandView::Dissociate(assoc_id) => seq![CMD_VERSION, CMD_TYPE_DISSOCIATE] + be16(
            assoc_id,
        ),
        CommandView::Heartbeat => seq![CMD_VERSION, CMD_TYPE_HEARTBEAT],
    }
}

/// The parser of the command encoding: the command read from a prefix of
/// `s`, with the number of bytes consumed, or nothing when no well-formed
/// command starts `s`.
pub open spec fn parse_command(s: Seq<u8>) -> Option<(CommandView, int)> {
    if s.len() < 2 || s[0] != CMD_VERSION {
        None
    } else if s[1] == CMD_TYPE_AUTHENTICATE {
        if s.len() < 50 {
            None
        } else {
            Some(
                (
                    CommandView::Authenticate(
                        AuthenticateView {
                            uuid: u128_of_be(s.subrange(2, 18)),
                            token: s.subrange(18, 50),
                        },
                    ),
                    50int,
                ),
            )
        }
    } else if s[1] == CMD_TYPE_CONNECT {
        match parse_address(s.skip(2)) {
            Some((addr, n)) => Some((CommandView::Connect(addr), 2 + n)),
            None => None,
        }
    } else if s[1] == CMD_TYPE_PACKET {
        if s.len() < 10 {
            None
        } else {
            match parse_address(s.skip(10)) {
                Some((addr, n)) => Some(
                    (
                        CommandView::Packet(
                            PacketView {
                                assoc_id: u16_of_be(s[2], s[3]),
                                pkt_id: u16_of_be(s[4], s[5]),
                                frag_total: s[6],
                                frag_id: s[7],
                                size: u16_of_be(s[8], s[9]),
                                addr,
                            },
                        ),
                        10 + n,
                    ),
                ),
                None => None,
            }
        }
    } else if s[1] == CMD_TYPE_DISSOCIATE {
        if s.len() < 4 {
            None
        } else {
            Some((CommandView::Dissociate(u16_of_be(s[2], s[3])), 4int))
        }
    } else if s[1] == CMD_TYPE_HEARTBEAT {
        Some((CommandView::Heartbeat, 2int))
    } else {
        None
    }
}

/// Parsing the encoding of a well-formed command gives the command back and
/// consumes the whole encoding: encoding then decoding any valid command
/// returns an identical logical value.
pub proof fn lemma_command_round_trip(c: CommandView)
    requires
        wf_command(c),
    ensures
        parse_command(encoded_command(c)) == Some((c, encoded_command(c).len() as int)),
{
    let s = encoded_command(c);
    match c {
        CommandView::Authenticate(a) => {
            assert(s.len() == 50);
            assert(s.subrange(2, 18) =~= be_u128(a.uuid));
            assert(s.subrange(18, 50) =~= a.token);
            lemma_be_u128_round(a.uuid);
        },
        CommandView::Connect(addr) => {
            assert(s.skip(2) =~= encoded_address(addr));
            lemma_address_round_trip(addr);
        },
        CommandView::Packet(p) => {
            let body = be16(p.assoc_id) + be16(p.pkt_id) + seq![p.frag_total, p.frag_id] + be16(
                p.size,
            );
            assert(s.len() >= 10);
            assert(s[2] == be16(p.assoc_id)[0] && s[3] == be16(p.assoc_id)[1]);
            assert(s[4] == be16(p.pkt_id)[0] && s[5] == be16(p.pkt_id)[1]);
            assert(s[6] == p.frag_total && s[7] == p.frag_id);
            assert(s[8] == be16(p.size)[0] && s[9] == be16(p.size)[1]);
            crate::address::lemma_be16_round(p.assoc_id);
            crate::address::lemma_be16_round(p.pkt_id);
            crate::address::lemma_be16_round(p.size);
            assert(s.skip(10) =~= encoded_address(p.addr));
            lemma_address_round_trip(p.addr);
        },
        CommandView::Dissociate(assoc_id) => {
            assert(s.len() == 4);
            assert(s[2] == be16(assoc_id)[0] && s[3] == be16(assoc_id)[1]);
            crate::address::lemma_be16_round(assoc_id);
        },
        CommandView::Heartbeat => {},
    }
}

/// Appends a 128-bit value in big-endian order.
pub fn push_be_u128(out: &mut Vec<u8>, x: u128)
    ensures
        final(out)@ == old(out)@ + be_u128(x),
{
    let mut i: usize = 0;
    while i < 16
        invariant
            i <= 16,
            out@ == old(out)@ + be_u128(x).subrange(0, i as int),
        decreases 16 - i,
    {
        let sh: u32 = ((15 - i) * 8) as u32;
        out.push((x >> sh) as u8);
        i = i + 1;
        assert(out@ =~= old(out)@ + be_u128(x).subrange(0, i as int));
    }
    assert(out@ =~= old(out)@ + be_u128(x));
}

/// Reads a 128-bit value from 16 big-endian bytes.
pub fn read_be_u128(s: &[u8]) -> (r: u128)
    requires
        s@.len() == 16,
    ensures
        r == u128_of_be(s@),
{
    let mut acc: u128 = 0;
    let mut i: usize = 0;
    while i < 16
        invariant
            i <= 16,
            s@.len() == 16,
            acc == u128_of_be(s@.subrange(0, i as int)),
        decreases 16 - i,
    {
        acc = (acc << 8) | (s[i] as u128);
        i = i + 1;
        proof {
            let p = s@.subrange(0, i as int);
            assert(p.drop_last() =~= s@.subrange(0, i - 1));
            assert(p.last() == s@[i - 1]);
        }
    }
    assert(s@.subrange(0, 16) =~= s@);
    acc
}

/// Appends the wire encoding of a command header.
pub fn encode_command(c: &Command, out: &mut Vec<u8>)
    requires
        wf_command(c@),
    ensures
        final(out)@ == old(out)@ + encoded_command(c@),
{
    out.push(CMD_VERSION);
    match c {
        Command::Authenticate(a) => {
            out.push(CMD_TYPE_AUTHENTICATE);
            push_be_u128(out, a.uuid);
            push_bytes(out, a.token.as_slice());
            assert(out@ =~= old(out)@ + encoded_command(c@));
        },
        Command::Connect(conn) => {
            out.push(CMD_TYPE_CONNECT);
            encode_address(&conn.addr, out);
            assert(out@ =~= old(out)@ + encoded_command(c@));
        },
        Command::Packet(p) => {
            out.push(CMD_TYPE_PACKET);
            push_be16(out, p.assoc_id);
            push_be16(out, p.pkt_id);
            out.push(p.frag_total);
            out.push(p.frag_id);
            push_be16(out, p.size);
            encode_address(&p.addr, out);
            assert(out@ =~= old(out)@ + encoded_command(c@));
        },
        Command::Dissociate(d) => {
            out.push(CMD_TYPE_DISSOCIATE);
            push_be16(out, d.assoc_id);
            assert(out@ =~= old(out)@ + encoded_command(c@));
        },
        Command::Heartbeat => {
            out.push(CMD_TYPE_HEARTBEAT);
            assert(out@ =~= old(out)@ + encoded_command(c@));
        },
    }
}

/// Decodes a command from a prefix of `s`, returning it with the number of
/// header bytes consumed. Fails with `Malformed` exactly when no
/// well-formed command starts `s`: on truncation, a wrong version byte, or
/// an unknown command type.
pub fn decode_command(s: &[u8]) -> (r: Result<(Command, usize), Error>)
    ensures
        match r {
            Ok((c, n)) => parse_command(s@) == Some((c@, n as int)) && wf_command(c@),
            Err(e) => e == Error::Malformed && parse_command(s@) is None,
        },
{
    if s.len() < 2 {
        return Err(Error::Malformed);
    }
    if s[0] != CMD_VERSION {
        return Err(Error::Malformed);
    }
    let t = s[1];
    if t == CMD_TYPE_AUTHENTICATE {
        if s.len() < 50 {
            return Err(Error::Malformed);
        }
        let uuid = read_be_u128(vstd::slice::slice_subrange(s, 2, 18));
        let token = vstd::slice::slice_to_vec(vstd::slice::slice_subrange(s, 18, 50));
        Ok((Command::Authenticate(Authenticate { uuid, token }), 50))
    } else if t == CMD_TYPE_CONNECT {
        let rest = vstd::slice::slice_subrange(s, 2, s.len());
        assert(rest@ =~= s@.skip(2));
        match decode_address(rest) {
            Some((addr, n)) => Ok((Command::Connect(Connect { addr }), 2 + n)),
            None => Err(Error::Malformed),
        }
    } else if t == CMD_TYPE_PACKET {
        if s.len() < 10 {
            return Err(Error::Malformed);
        }
        let rest = vstd::slice::slice_subrange(s, 10, s.len());
        assert(rest@ =~= s@.skip(10));
        match decode_address(rest) {
            Some((addr, n)) => {
                let p = Packet {
                    assoc_id: read_be16(s[2], s[3]),
                    pkt_id: read_be16(s[4], s[5]),
                    frag_total: s[6],
                    frag_id: s[7],
                    size: read_be16(s[8], s[9]),
                    addr,
                };
                Ok((Command::Packet(p), 10 + n))
            },
            None => Err(Error::Malformed),
        }
    } else if t == CMD_TYPE_DISSOCIATE {
        if s.len() < 4 {
            return Err(Error::Malformed);
        }
        Ok((Command::Dissociate(Dissociate { assoc_id: read_be16(s[2], s[3]) }), 4))
    } else if t == CMD_TYPE_HEARTBEAT {
        Ok((Command::Heartbeat, 2))
    } else {
        Err(Error::Malformed)
    }
}

/// Copies the `size`-byte payload that follows a decoded header at offset
/// `at`; fails with `Malformed` exactly when `s` is too short to hold it.
pub fn take_payload(s: &[u8], at: usize, size: u16) -> (r: Result<Vec<u8>, Error>)
    requires
        at <= s@.len(),
    ensures
        match r {
            Ok(v) => at + size <= s@.len() && v@ == s@.subrange(at as int, at + size),
            Err(e) => e == Error::Malformed && at + size > s@.len(),
        },
{
    if s.len() - at < size as usize {
        return Err(Error::Malformed);
    }
    Ok(vstd::slice::slice_to_vec(vstd::slice::slice_subrange(s, at, at + size as usize)))
}

} // verus!
