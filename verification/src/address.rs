//! Relay target addresses as TUIC carries them on the wire: a tagged union of
//! no-address, a domain name with a port, and a raw IPv4 or IPv6 socket
//! address. The byte encoding and its parser are both given as spec
//! functions, and the executable codec is proved against them.

use vstd::prelude::*;

verus! {

/// Wire tag for a domain-name address.
pub const ADDR_TAG_DOMAIN: u8 = 0x00;

/// Wire tag for an IPv4 socket address.
pub const ADDR_TAG_IPV4: u8 = 0x01;

/// Wire tag for an IPv6 socket address.
pub const ADDR_TAG_IPV6: u8 = 0x02;

/// Wire tag for the absence of an address.
pub const ADDR_TAG_NONE: u8 = 0xff;

/// An IPv4 or IPv6 socket address: the raw address bytes plus a port.
#[derive(Clone, Copy, Debug, PartialEq, Eq)]
pub enum SocketAddress {
    V4([u8; 4], u16),
    V6([u8; 16], u16),
}

/// A bare host address without a port.
#[derive(Clone, Copy, Debug, PartialEq, Eq)]
pub enum IpAddress {
    V4([u8; 4]),
    V6([u8; 16]),
}

/// A relay target as carried by TUIC commands.
#[derive(Clone, Debug, PartialEq, Eq)]
pub enum Address {
    Unspecified,
    Domain(Vec<u8>, u16),
    Socket(SocketAddress),
}

/// Mathematical model of a socket address.
pub enum SocketAddressView {
    V4(Seq<u8>, u16),
    V6(Seq<u8>, u16),
}

/// Mathematical model of a relay target.
pub enum AddressView {
    Unspecified,
    Domain(Seq<u8>, u16),
    Socket(SocketAddressView),
}

impl View for SocketAddress {
    type V = SocketAddressView;

    open spec fn view(&self) -> SocketAddressView {
        match self {
            SocketAddress::V4(ip, port) => SocketAddressView::V4(ip@, *port),
            SocketAddress::V6(ip, port) => SocketAddressView::V6(ip@, *port),
        }
    }
}

impl View for Address {
    type V = AddressView;

    open spec fn view(&self) -> AddressView {
        match self {
            Address::Unspecified => AddressView::Unspecified,
            Address::Domain(name, port) => AddressView::Domain(name@, *port),
            Address::Socket(sa) => AddressView::Socket(sa@),
        }
    }
}

impl SocketAddress {
    /// True for an IPv6 address; the UDP send path selects the socket by this.
    pub fn is_ipv6(&self) -> (r: bool)
        ensures
            r == (self@ is V6),
    {
        match self {
            SocketAddress::V4(_, _) => false,
            SocketAddress::V6(_, _) => true,
        }
    }
}

/// A well-formed address: a domain name fits the one-byte length field, and
/// raw addresses have exactly their family's width.
pub open spec fn wf_address(a: AddressView) -> bool {
    match a {
        AddressView::Unspecified => true,
        AddressView::Domain(name, _) => name.len() <= 255,
        AddressView::Socket(SocketAddressView::V4(ip, _)) => ip.len() == 4,
        AddressView::Socket(SocketAddressView::V6(ip, _)) => ip.len() == 16,
    }
}

/// Big-endian bytes of a 16-bit value.
pub open spec fn be16(x: u16) -> Seq<u8> {
    seq![(x >> 8) as u8, x as u8]
}

/// The 16-bit value read from two big-endian bytes.
pub open spec fn u16_of_be(hi: u8, lo: u8) -> u16 {
    ((hi as u16) << 8) | (lo as u16)
}

/// Reading back the big-endian bytes of a 16-bit value gives the value.
pub proof fn lemma_be16_round(x: u16)
    ensures
        u16_of_be(be16(x)[0], be16(x)[1]) == x,
{
    assert((((((x >> 8) as u8) as u16) << 8) | ((x as u8) as u16)) == x) by (bit_vector);
}

/// The byte encoding of an address.
pub open spec fn encoded_address(a: AddressView) -> Seq<u8> {
    match a {
        AddressView::Unspecified => seq![ADDR_TAG_NONE],
        AddressView::Domain(name, port) => seq![ADDR_TAG_DOMAIN, name.len() as u8] + name + be16(
            port,
        ),
        AddressView::Socket(SocketAddressView::V4(ip, port)) => seq![ADDR_TAG_IPV4] + ip + be16(
            port,
        ),
        AddressView::Socket(SocketAddressView::V6(ip, port)) => seq![ADDR_TAG_IPV6] + ip + be16(
            port,
        ),
    }
}

/// The parser of the address encoding: the address read from a prefix of
/// `s`, with the number of bytes consumed, or nothing when no well-formed
/// address starts `s`.
pub open spec fn parse_address(s: Seq<u8>) -> Option<(AddressView, int)> {
    if s.len() < 1 {
        None
    } else if s[0] == ADDR_TAG_NONE {
        Some((AddressView::Unspecified, 1int))
    } else if s[0] == ADDR_TAG_DOMAIN {
        if s.len() < 2 {
            None
        } else {
            let n = s[1] as int;
            if s.len() < 4 + n {
                None
            } else {
                Some(
                    (
                        AddressView::Domain(s.subrange(2, 2 + n), u16_of_be(s[2 + n], s[3 + n])),
                        4 + n,
                    ),
                )
            }
        }
    } else if s[0] == ADDR_TAG_IPV4 {
        if s.len() < 7 {
            None
        } else {
            Some(
                (
                    AddressView::Socket(
                        SocketAddressView::V4(s.subrange(1, 5), u16_of_be(s[5], s[6])),
                    ),
                    7int,
                ),
            )
        }
    } else if s[0] == ADDR_TAG_IPV6 {
        if s.len() < 19 {
            None
        } else {
            Some(
                (
                    AddressView::Socket(
                        SocketAddressView::V6(s.subrange(1, 17), u16_of_be(s[17], s[18])),
                    ),
                    19int,
                ),
            )
        }
    } else {
        None
    }
}

/// Parsing the encoding of a well-formed address gives the address back and
/// consumes the whole encoding.
pub proof fn lemma_address_round_trip(a: AddressView)
    requires
        wf_address(a),
    ensures
        parse_address(encoded_address(a)) == Some((a, encoded_address(a).len() as int)),
{
    let s = encoded_address(a);
    match a {
        AddressView::Unspecified => {},
        AddressView::Domain(name, port) => {
            let n = name.len() as int;
            assert(s.len() == 4 + n);
            assert(s[0] == ADDR_TAG_DOMAIN);
            assert(s[1] == name.len() as u8);
            assert(s[1] as int == n);
            assert(s.subrange(2, 2 + n) =~= name);
            assert(s[2 + n] == be16(port)[0]);
            assert(s[3 + n] == be16(port)[1]);
            lemma_be16_round(port);
        },
        AddressView::Socket(SocketAddressView::V4(ip, port)) => {
            assert(s.len() == 7);
            assert(s.subrange(1, 5) =~= ip);
            assert(s[5] == be16(port)[0]);
            assert(s[6] == be16(port)[1]);
            lemma_be16_round(port);
        },
        AddressView::Socket(SocketAddressView::V6(ip, port)) => {
            assert(s.len() == 19);
            assert(s.subrange(1, 17) =~= ip);
            assert(s[17] == be16(port)[0]);
            assert(s[18] == be16(port)[1]);
            lemma_be16_round(port);
        },
    }
}

/// Appends the bytes of `src` to `out`.
pub fn push_bytes(out: &mut Vec<u8>, src: &[u8])
    ensures
        final(out)@ == old(out)@ + src@,
{
    let mut i: usize = 0;
    while i < src.len()
        invariant
            i <= src@.len(),
            out@ == old(out)@ + src@.subrange(0, i as int),
        decreases src@.len() - i,
    {
        out.push(src[i]);
        i = i + 1;
        assert(out@ =~= old(out)@ + src@.subrange(0, i as int));
    }
    assert(out@ =~= old(out)@ + src@);
}

/// Appends a 16-bit value in big-endian order.
pub fn push_be16(out: &mut Vec<u8>, x: u16)
    ensures
        final(out)@ == old(out)@ + be16(x),
{
    out.push((x >> 8) as u8);
    out.push(x as u8);
    assert(out@ =~= old(out)@ + be16(x));
}

/// Reads a 16-bit value from two big-endian bytes.
pub fn read_be16(hi: u8, lo: u8) -> (r: u16)
    ensures
        r == u16_of_be(hi, lo),
{
    ((hi as u16) << 8) | (lo as u16)
}

/// Appends the wire encoding of an address.
pub fn encode_address(a: &Address, out: &mut Vec<u8>)
    requires
        wf_address(a@),
    ensures
        final(out)@ == old(out)@ + encoded_address(a@),
{
    match a {
        Address::Unspecified => {
            out.push(ADDR_TAG_NONE);
            assert(out@ =~= old(out)@ + encoded_address(a@));
        },
        Address::Domain(name, port) => {
            out.push(ADDR_TAG_DOMAIN);
            out.push(name.len() as u8);
            push_bytes(out, name.as_slice());
            push_be16(out, *port);
            assert(out@ =~= old(out)@ + encoded_address(a@));
        },
        Address::Socket(SocketAddress::V4(ip, port)) => {
            out.push(ADDR_TAG_IPV4);
            push_bytes(out, ip.as_slice());
            push_be16(out, *port);
            assert(out@ =~= old(out)@ + encoded_address(a@));
        },
        Address::Socket(SocketAddress::V6(ip, port)) => {
            out.push(ADDR_TAG_IPV6);
            push_bytes(out, ip.as_slice());
            push_be16(out, *port);
            assert(out@ =~= old(out)@ + encoded_address(a@));
        },
    }
}

/// Decodes an address from a prefix of `s`, returning it with the number of
/// bytes consumed; `None` exactly when no well-formed address starts `s`.
pub fn decode_address(s: &[u8]) -> (r: Option<(Address, usize)>)
    ensures
        match r {
            Some((a, n)) => parse_address(s@) == Some((a@, n as int)) && wf_address(a@),
            None => parse_address(s@) is None,
        },
{
    if s.len() < 1 {
        return None;
    }
    let tag = s[0];
    if tag == ADDR_TAG_NONE {
        Some((Address::Unspecified, 1))
    } else if tag == ADDR_TAG_DOMAIN {
        if s.len() < 2 {
            return None;
        }
        let n = s[1] as usize;
        if s.len() < 4 + n {
            return None;
        }
        let name = vstd::slice::slice_to_vec(vstd::slice::slice_subrange(s, 2, 2 + n));
        let port = read_be16(s[2 + n], s[3 + n]);
        Some((Address::Domain(name, port), 4 + n))
    } else if tag == ADDR_TAG_IPV4 {
        if s.len() < 7 {
            return None;
        }
        let ip: [u8; 4] = [s[1], s[2], s[3], s[4]];
        let port = read_be16(s[5], s[6]);
        assert(ip@ =~= s@.subrange(1, 5));
        Some((Address::Socket(SocketAddress::V4(ip, port)), 7))
    } else if tag == ADDR_TAG_IPV6 {
        if s.len() < 19 {
            return None;
        }
        let ip: [u8; 16] = [
            s[1],
            s[2],
            s[3],
            s[4],
            s[5],
            s[6],
            s[7],
            s[8],
            s[9],
            s[10],
            s[11],
            s[12],
            s[13],
            s[14],
            s[15],
            s[16],
        ];
        let port = read_be16(s[17], s[18]);
        assert(ip@ =~= s@.subrange(1, 17));
        Some((Address::Socket(SocketAddress::V6(ip, port)), 19))
    } else {
        None
    }
}

} // verus!
