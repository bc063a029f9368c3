use crate::address::IpAddress;
use pnet_packet::ethernet::EthernetPacket;
use pnet_packet::ipv4::Ipv4Packet;
use pnet_packet::ipv6::Ipv6Packet;
use pnet_packet::tcp::TcpPacket;
use pnet_packet::udp::UdpPacket;
use vstd::prelude::*;
use vstd::slice::slice_subrange;

verus! {

/// Ethernet header length.
pub const ETHERNET_HEADER_LEN: usize = 14;

/// Ethertype of an IPv4 payload.
pub const ETHERTYPE_IPV4: u16 = 0x0800;

/// Ethertype of an IPv6 payload.
pub const ETHERTYPE_IPV6: u16 = 0x86DD;

/// Length of the fixed part of an IPv4 header.
pub const IPV4_MIN_HEADER_LEN: usize = 20;

/// Length of an IPv6 header.
pub const IPV6_HEADER_LEN: usize = 40;

/// IP protocol number of TCP.
pub const PROTO_TCP: u8 = 6;

/// IP protocol number of UDP.
pub const PROTO_UDP: u8 = 17;

/// Length of the fixed part of a TCP header.
pub const TCP_MIN_HEADER_LEN: usize = 20;

/// Length of a UDP header.
pub const UDP_HEADER_LEN: usize = 8;

/// The SYN bit of the TCP flags byte.
pub const TCP_SYN: u8 = 0b0000_0010;

/// The unsigned integer that the bytes of `s` spell in network order.
pub open spec fn be_value(s: Seq<u8>) -> nat
    decreases s.len(),
{
    if s.len() == 0 {
        0
    } else {
        be_value(s.drop_last()) * 256 + s.last() as nat
    }
}

/// The 16-bit network-order integer at bytes `i` and `i + 1` of `s`.
pub open spec fn be16_at(s: Seq<u8>, i: int) -> u16 {
    be_value(s.subrange(i, i + 2)) as u16
}

/// Relies on pnet_packet's `EthernetPacket`: `new` accepts a frame of at least
/// 14 bytes, and `get_ethertype` reads bytes 12 and 13 in network order.
#[verifier::external_body]
fn ethernet_ethertype(frame: &[u8]) -> (r: Option<u16>)
    ensures
        r == (if frame@.len() >= ETHERNET_HEADER_LEN {
            Some(be16_at(frame@, 12))
        } else {
            None::<u16>
        }),
{
    match EthernetPacket::new(frame) {
        Some(p) => Some(p.get_ethertype().0),
        None => None,
    }
}

/// Relies on pnet_packet's `Ipv4Packet`: `new` accepts at least 20 bytes;
/// `get_header_length` is the low nibble of byte 0, `get_next_level_protocol`
/// byte 9, and `get_source` and `get_destination` bytes 12 to 15 and 16 to 19,
/// read in network order.
#[verifier::external_body]
fn ipv4_header(b: &[u8]) -> (r: Option<(u8, u32, u32, u8)>)
    ensures
        r == (if b@.len() >= IPV4_MIN_HEADER_LEN {
            Some(
                (
                    b@[0] % 16,
                    be_value(b@.subrange(12, 16)) as u32,
                    be_value(b@.subrange(16, 20)) as u32,
                    b@[9],
                ),
            )
        } else {
            None::<(u8, u32, u32, u8)>
        }),
{
    match Ipv4Packet::new(b) {
        Some(p) => Some(
            (
                p.get_header_length(),
                u32::from(p.get_source()),
                u32::from(p.get_destination()),
                p.get_next_level_protocol().0,
            ),
        ),
        None => None,
    }
}

/// Relies on pnet_packet's `Ipv6Packet`: `new` accepts at least 40 bytes;
/// `get_next_header` is byte 6, and `get_source` and `get_destination` bytes 8
/// to 23 and 24 to 39, read in network order.
#[verifier::external_body]
fn ipv6_header(b: &[u8]) -> (r: Option<(u128, u128, u8)>)
    ensures
        r == (if b@.len() >= IPV6_HEADER_LEN {
            Some(
                (
                    be_value(b@.subrange(8, 24)) as u128,
                    be_value(b@.subrange(24, 40)) as u128,
                    b@[6],
                ),
            )
        } else {
            None::<(u128, u128, u8)>
        }),
{
    match Ipv6Packet::new(b) {
        Some(p) => Some(
            (u128::from(p.get_source()), u128::from(p.get_destination()), p.get_next_header().0),
        ),
        None => None,
    }
}

/// Relies on pnet_packet's `TcpPacket`: `new` accepts at least 20 bytes;
/// `get_source` and `get_destination` read bytes 0 and 1 and bytes 2 and 3 in
/// network order, and `get_flags` is byte 13.
#[verifier::external_body]
fn tcp_header(b: &[u8]) -> (r: Option<(u16, u16, u8)>)
    ensures
        r == (if b@.len() >= TCP_MIN_HEADER_LEN {
            Some((be16_at(b@, 0), be16_at(b@, 2), b@[13]))
        } else {
            None::<(u16, u16, u8)>
        }),
{
    match TcpPacket::new(b) {
        Some(p) => Some((p.get_source(), p.get_destination(), p.get_flags())),
        None => None,
    }
}

/// Relies on pnet_packet's `UdpPacket`: `new` accepts at least 8 bytes, and
/// `get_source` and `get_destination` read bytes 0 and 1 and bytes 2 and 3 in
/// network order.
#[verifier::external_body]
fn udp_header(b: &[u8]) -> (r: Option<(u16, u16)>)
    ensures
        r == (if b@.len() >= UDP_HEADER_LEN {
            Some((be16_at(b@, 0), be16_at(b@, 2)))
        } else {
            None::<(u16, u16)>
        }),
{
    match UdpPacket::new(b) {
        Some(p) => Some((p.get_source(), p.get_destination())),
        None => None,
    }
}

/// The transport protocol a knock came over.
#[derive(Clone, Copy, Debug, PartialEq, Eq, Structural)]
pub enum Transport {
    Tcp,
    Udp,
}

/// What a captured frame says about a knock.
#[derive(Clone, Copy, Debug, PartialEq, Eq, Structural)]
pub struct KnockMeta {
    pub proto: Transport,
    pub src_addr: IpAddress,
    pub dst_addr: IpAddress,
    pub src_port: u16,
    pub dst_port: u16,
}

/// A frame that is not a candidate knock.
#[derive(Clone, Copy, Debug, PartialEq, Eq, Structural)]
pub struct TryFromSliceError;

/// The knock a transport segment `t` carries, sent from `src` to `dst` over IP
/// protocol `proto`: a TCP segment with SYN set, or any UDP datagram.
pub open spec fn transport_knock(
    proto: u8,
    src: IpAddress,
    dst: IpAddress,
    t: Seq<u8>,
) -> Option<KnockMeta> {
    if proto == PROTO_TCP {
        if t.len() < TCP_MIN_HEADER_LEN || t[13] & TCP_SYN == 0 {
            None
        } else {
            Some(
                KnockMeta {
                    proto: Transport::Tcp,
                    src_addr: src,
                    dst_addr: dst,
                    src_port: be16_at(t, 0),
                    dst_port: be16_at(t, 2),
                },
            )
        }
    } else if proto == PROTO_UDP {
        if t.len() < UDP_HEADER_LEN {
            None
        } else {
            Some(
                KnockMeta {
                    proto: Transport::Udp,
                    src_addr: src,
                    dst_addr: dst,
                    src_port: be16_at(t, 0),
                    dst_port: be16_at(t, 2),
                },
            )
        }
    } else {
        None
    }
}

/// The knock an Ethernet frame carries, if it is one: IPv4 (whose header
/// length must cover the fixed header and fit in the frame) or IPv6, then TCP
/// or UDP.
pub open spec fn frame_knock(f: Seq<u8>) -> Option<KnockMeta> {
    if f.len() < ETHERNET_HEADER_LEN {
        None
    } else {
        let p = f.subrange(ETHERNET_HEADER_LEN as int, f.len() as int);
        let ethertype = be16_at(f, 12);
        if ethertype == ETHERTYPE_IPV4 {
            let header_len = (p[0] % 16) * 4;
            if p.len() < IPV4_MIN_HEADER_LEN || header_len < IPV4_MIN_HEADER_LEN || header_len
                > p.len() {
                None
            } else {
                transport_knock(
                    p[9],
                    IpAddress::V4(be_value(p.subrange(12, 16)) as u32),
                    IpAddress::V4(be_value(p.subrange(16, 20)) as u32),
                    p.subrange(header_len as int, p.len() as int),
                )
            }
        } else if ethertype == ETHERTYPE_IPV6 {
            if p.len() < IPV6_HEADER_LEN {
                None
            } else {
                transport_knock(
                    p[6],
                    IpAddress::V6(be_value(p.subrange(8, 24)) as u128),
                    IpAddress::V6(be_value(p.subrange(24, 40)) as u128),
                    p.subrange(IPV6_HEADER_LEN as int, p.len() as int),
                )
            }
        } else {
            None
        }
    }
}

/// Reads the knock carried by the transport segment `t`.
fn decode_transport(proto: u8, src: IpAddress, dst: IpAddress, t: &[u8]) -> (r: Result<
    KnockMeta,
    TryFromSliceError,
>)
    ensures
        r == (match transport_knock(proto, src, dst, t@) {
            Some(m) => Ok::<KnockMeta, TryFromSliceError>(m),
            None => Err(TryFromSliceError),
        }),
{
    if proto == PROTO_TCP {
        match tcp_header(t) {
            Some((src_port, dst_port, flags)) => {
                if flags & TCP_SYN == 0 {
                    return Err(TryFromSliceError);
                }
                Ok(KnockMeta { proto: Transport::Tcp, src_addr: src, dst_addr: dst, src_port, dst_port })
            },
            None => Err(TryFromSliceError),
        }
    } else if proto == PROTO_UDP {
        match udp_header(t) {
            Some((src_port, dst_port)) => Ok(
                KnockMeta { proto: Transport::Udp, src_addr: src, dst_addr: dst, src_port, dst_port },
            ),
            None => Err(TryFromSliceError),
        }
    } else {
        Err(TryFromSliceError)
    }
}

impl KnockMeta {
    /// Reads the knock an Ethernet frame carries. Only TCP segments with SYN
    /// set and UDP datagrams over IPv4 or IPv6 are knocks.
    pub fn decode(frame: &[u8]) -> (r: Result<KnockMeta, TryFromSliceError>)
        ensures
            r == (match frame_knock(frame@) {
                Some(m) => Ok::<KnockMeta, TryFromSliceError>(m),
                None => Err(TryFromSliceError),
            }),
    {
        let ethertype = match ethernet_ethertype(frame) {
            Some(t) => t,
            None => {
                return Err(TryFromSliceError);
            },
        };
        let payload = slice_subrange(frame, ETHERNET_HEADER_LEN, frame.len());
        if ethertype == ETHERTYPE_IPV4 {
            match ipv4_header(payload) {
                Some((header_words, src, dst, proto)) => {
                    let header_len = header_words as usize * 4;
                    // The header must be at least its fixed part long and fit in
                    // what was captured.
                    if header_len < IPV4_MIN_HEADER_LEN || header_len > payload.len() {
                        return Err(TryFromSliceError);
                    }
                    let rest = slice_subrange(payload, header_len, payload.len());
                    decode_transport(proto, IpAddress::V4(src), IpAddress::V4(dst), rest)
                },
                None => Err(TryFromSliceError),
            }
        } else if ethertype == ETHERTYPE_IPV6 {
            match ipv6_header(payload) {
                Some((src, dst, proto)) => {
                    let rest = slice_subrange(payload, IPV6_HEADER_LEN, payload.len());
                    decode_transport(proto, IpAddress::V6(src), IpAddress::V6(dst), rest)
                },
                None => Err(TryFromSliceError),
            }
        } else {
            Err(TryFromSliceError)
        }
    }
}

impl<'a> TryFrom<&'a [u8]> for KnockMeta {
    type Error = TryFromSliceError;

    fn try_from(frame: &'a [u8]) -> (r: Result<KnockMeta, TryFromSliceError>) {
        KnockMeta::decode(frame)
    }
}

impl<'a> vstd::std_specs::convert::TryFromSpecImpl<&'a [u8]> for KnockMeta {
    open spec fn obeys_try_from_spec() -> bool {
        true
    }

    open spec fn try_from_spec(frame: &'a [u8]) -> Result<KnockMeta, TryFromSliceError> {
        match frame_knock(frame@) {
            Some(m) => Ok(m),
            None => Err(TryFromSliceError),
        }
    }
}

} // verus!
