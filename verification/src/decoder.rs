//! Layered header views: Ethernet, then IPv4, then TCP or UDP.
//!
//! Every view is cut out of the packet by [`ptr_at`], so none exists unless
//! its bytes lie inside the packet. Multi-byte fields are big-endian on the
//! wire and are handed out in host order.

use crate::cursor::{ptr_at, OutOfBounds, RawPacket};
use network_types::eth::{EthHdr, EtherType};
use network_types::ip::{IpProto, Ipv4Hdr};
use network_types::tcp::TcpHdr;
use network_types::udp::UdpHdr;
use vstd::prelude::*;

verus! {

/// Length of an Ethernet header, and the offset of the IPv4 header.
pub const ETH_HDR_LEN: usize = 14;

/// Length of an IPv4 header without options.
pub const IPV4_HDR_LEN: usize = 20;

/// Length of a TCP header without options.
pub const TCP_HDR_LEN: usize = 20;

/// Length of a UDP header.
pub const UDP_HDR_LEN: usize = 8;

/// Offset of the transport header: right after the fixed IPv4 header.
pub const TRANSPORT_OFFSET: usize = 34;

/// The ethertype of IPv4.
pub const ETHERTYPE_IPV4: u16 = 0x0800;

/// The IPv4 protocol number of TCP.
pub const IPPROTO_TCP: u8 = 6;

/// The IPv4 protocol number of UDP.
pub const IPPROTO_UDP: u8 = 17;

/// `network_types::eth::EthHdr::LEN`: the size of the Ethernet header
/// struct, two 6-byte addresses and a 16-bit ethertype, packed.
#[verifier::external_body]
fn eth_hdr_size() -> (n: usize)
    ensures
        n == ETH_HDR_LEN,
{
    EthHdr::LEN
}

/// `network_types::ip::Ipv4Hdr::LEN`: the size of the IPv4 header struct,
/// which has no room for options.
#[verifier::external_body]
fn ipv4_hdr_size() -> (n: usize)
    ensures
        n == IPV4_HDR_LEN,
{
    Ipv4Hdr::LEN
}

/// `network_types::tcp::TcpHdr::LEN`: the size of the TCP header struct,
/// which has no room for options.
#[verifier::external_body]
fn tcp_hdr_size() -> (n: usize)
    ensures
        n == TCP_HDR_LEN,
{
    TcpHdr::LEN
}

/// `network_types::udp::UdpHdr::LEN`: the size of the UDP header struct,
/// four 16-bit fields.
#[verifier::external_body]
fn udp_hdr_size() -> (n: usize)
    ensures
        n == UDP_HDR_LEN,
{
    UdpHdr::LEN
}

/// `network_types::eth::EtherType::Ipv4`, which the crate stores in network
/// byte order; brought to host order by `u16::from_be` it is 0x0800.
#[verifier::external_body]
fn ipv4_ether_type() -> (t: u16)
    ensures
        t == ETHERTYPE_IPV4,
{
    u16::from_be(EtherType::Ipv4 as u16)
}

/// `network_types::ip::IpProto::Tcp`, whose discriminant is 6.
#[verifier::external_body]
fn tcp_proto() -> (p: u8)
    ensures
        p == IPPROTO_TCP,
{
    IpProto::Tcp as u8
}

/// `network_types::ip::IpProto::Udp`, whose discriminant is 17.
#[verifier::external_body]
fn udp_proto() -> (p: u8)
    ensures
        p == IPPROTO_UDP,
{
    IpProto::Udp as u8
}

/// The 16-bit big-endian number at `at`.
pub open spec fn be_u16(bytes: Seq<u8>, at: int) -> u16 {
    (bytes[at] * 0x100 + bytes[at + 1]) as u16
}

/// The 32-bit big-endian number at `at`.
pub open spec fn be_u32(bytes: Seq<u8>, at: int) -> u32 {
    (bytes[at] * 0x100_0000 + bytes[at + 1] * 0x1_0000 + bytes[at + 2] * 0x100 + bytes[at + 3]) as u32
}

/// Reads the 16-bit big-endian number at `at`.
fn read_be_u16(bytes: &[u8], at: usize) -> (value: u16)
    requires
        at + 2 <= bytes@.len(),
    ensures
        value == be_u16(bytes@, at as int),
{
    let hi: u16 = bytes[at] as u16;
    let lo: u16 = bytes[at + 1] as u16;
    hi * 0x100 + lo
}

/// Reads the 32-bit big-endian number at `at`.
fn read_be_u32(bytes: &[u8], at: usize) -> (value: u32)
    requires
        at + 4 <= bytes@.len(),
    ensures
        value == be_u32(bytes@, at as int),
{
    let b0: u32 = bytes[at] as u32;
    let b1: u32 = bytes[at + 1] as u32;
    let b2: u32 = bytes[at + 2] as u32;
    let b3: u32 = bytes[at + 3] as u32;
    b0 * 0x100_0000 + b1 * 0x1_0000 + b2 * 0x100 + b3
}

/// The ethertype of a packet that holds a whole Ethernet header.
pub open spec fn ether_type_of(packet: Seq<u8>) -> u16 {
    be_u16(packet, 12)
}

/// The transport-protocol field of a packet that holds a whole IPv4 header.
pub open spec fn protocol_of(packet: Seq<u8>) -> u8 {
    packet[ETH_HDR_LEN + 9]
}

/// The source address of a packet that holds a whole IPv4 header.
pub open spec fn src_addr_of(packet: Seq<u8>) -> u32 {
    be_u32(packet, ETH_HDR_LEN + 12)
}

/// The destination address of a packet that holds a whole IPv4 header.
pub open spec fn dst_addr_of(packet: Seq<u8>) -> u32 {
    be_u32(packet, ETH_HDR_LEN + 16)
}

/// The source port of a packet that holds a whole TCP or UDP header.
pub open spec fn src_port_of(packet: Seq<u8>) -> u16 {
    be_u16(packet, TRANSPORT_OFFSET as int)
}

/// A view of the Ethernet header at the start of a packet.
pub struct EthernetHeader<'a> {
    bytes: &'a [u8],
}

impl<'a> View for EthernetHeader<'a> {
    type V = Seq<u8>;

    closed spec fn view(&self) -> Seq<u8> {
        self.bytes@
    }
}

impl<'a> EthernetHeader<'a> {
    /// The view spans a whole Ethernet header.
    #[verifier::type_invariant]
    spec fn whole(self) -> bool {
        self.bytes@.len() == ETH_HDR_LEN
    }

    /// Views the first 14 bytes of the packet as an Ethernet header.
    pub fn read(packet: &RawPacket<'a>) -> (header: Result<Self, OutOfBounds>)
        ensures
            header is Ok <==> packet@.len() >= ETH_HDR_LEN,
            header matches Ok(h) ==> h@ == packet@.subrange(0, ETH_HDR_LEN as int),
    {
        match ptr_at(packet, 0, eth_hdr_size()) {
            Ok(bytes) => Ok(EthernetHeader { bytes }),
            Err(e) => Err(e),
        }
    }

    /// The protocol carried in the frame, in host order.
    pub fn ether_type(&self) -> (t: u16)
        ensures
            t == be_u16(self@, 12),
    {
        proof {
            use_type_invariant(self);
        }
        read_be_u16(self.bytes, 12)
    }

    /// Tells whether the frame carries IPv4.
    pub fn is_ipv4(&self) -> (ipv4: bool)
        ensures
            ipv4 == (be_u16(self@, 12) == ETHERTYPE_IPV4),
    {
        self.ether_type() == ipv4_ether_type()
    }
}

/// A view of the fixed 20-byte IPv4 header that follows the Ethernet header.
pub struct Ipv4Header<'a> {
    bytes: &'a [u8],
}

impl<'a> View for Ipv4Header<'a> {
    type V = Seq<u8>;

    closed spec fn view(&self) -> Seq<u8> {
        self.bytes@
    }
}

impl<'a> Ipv4Header<'a> {
    /// The view spans a whole IPv4 header.
    #[verifier::type_invariant]
    spec fn whole(self) -> bool {
        self.bytes@.len() == IPV4_HDR_LEN
    }

    /// Views the 20 bytes at offset 14 as an IPv4 header. Options are not
    /// supported: the header length field is not consulted.
    pub fn read(packet: &RawPacket<'a>) -> (header: Result<Self, OutOfBounds>)
        ensures
            header is Ok <==> packet@.len() >= ETH_HDR_LEN + IPV4_HDR_LEN,
            header matches Ok(h) ==> h@ == packet@.subrange(
                ETH_HDR_LEN as int,
                ETH_HDR_LEN + IPV4_HDR_LEN,
            ),
    {
        match ptr_at(packet, ETH_HDR_LEN, ipv4_hdr_size()) {
            Ok(bytes) => Ok(Ipv4Header { bytes }),
            Err(e) => Err(e),
        }
    }

    /// The transport protocol number.
    pub fn protocol(&self) -> (p: u8)
        ensures
            p == self@[9],
    {
        proof {
            use_type_invariant(self);
        }
        self.bytes[9]
    }

    /// The source address, in host order.
    pub fn src_addr(&self) -> (addr: u32)
        ensures
            addr == be_u32(self@, 12),
    {
        proof {
            use_type_invariant(self);
        }
        read_be_u32(self.bytes, 12)
    }

    /// The destination address, in host order.
    pub fn dst_addr(&self) -> (addr: u32)
        ensures
            addr == be_u32(self@, 16),
    {
        proof {
            use_type_invariant(self);
        }
        read_be_u32(self.bytes, 16)
    }
}

/// The transport protocols whose source port the filter reads.
#[derive(Clone, Copy, Debug, PartialEq, Eq, Structural)]
pub enum TransportProtocol {
    /// Protocol number 6.
    Tcp,
    /// Protocol number 17.
    Udp,
}

/// The transport protocol that a protocol number stands for, if the filter
/// handles it.
pub open spec fn transport_of(protocol: u8) -> Option<TransportProtocol> {
    if protocol == IPPROTO_TCP {
        Some(TransportProtocol::Tcp)
    } else if protocol == IPPROTO_UDP {
        Some(TransportProtocol::Udp)
    } else {
        None
    }
}

/// The header length that the filter asks for, by protocol.
pub open spec fn transport_len(protocol: TransportProtocol) -> nat {
    match protocol {
        TransportProtocol::Tcp => TCP_HDR_LEN as nat,
        TransportProtocol::Udp => UDP_HDR_LEN as nat,
    }
}

impl TransportProtocol {
    /// Tells TCP and UDP apart from every other protocol number.
    pub fn from_number(protocol: u8) -> (transport: Option<TransportProtocol>)
        ensures
            transport == transport_of(protocol),
    {
        if protocol == tcp_proto() {
            Some(TransportProtocol::Tcp)
        } else if protocol == udp_proto() {
            Some(TransportProtocol::Udp)
        } else {
            None
        }
    }

    /// The length of this protocol's header.
    pub fn header_len(self) -> (n: usize)
        ensures
            n == transport_len(self),
    {
        match self {
            TransportProtocol::Tcp => tcp_hdr_size(),
            TransportProtocol::Udp => udp_hdr_size(),
        }
    }
}

/// A view of the TCP or UDP header at offset 34.
pub struct TransportHeader<'a> {
    bytes: &'a [u8],
}

impl<'a> View for TransportHeader<'a> {
    type V = Seq<u8>;

    closed spec fn view(&self) -> Seq<u8> {
        self.bytes@
    }
}

impl<'a> TransportHeader<'a> {
    /// The view spans at least the source port.
    #[verifier::type_invariant]
    spec fn holds_ports(self) -> bool {
        self.bytes@.len() >= 2
    }

    /// Views the bytes at offset 34 as a header of the given protocol: 20
    /// bytes for TCP, 8 for UDP.
    pub fn read(packet: &RawPacket<'a>, protocol: TransportProtocol) -> (header: Result<
        Self,
        OutOfBounds,
    >)
        ensures
            header is Ok <==> packet@.len() >= TRANSPORT_OFFSET + transport_len(protocol),
            header matches Ok(h) ==> h@ == packet@.subrange(
                TRANSPORT_OFFSET as int,
                TRANSPORT_OFFSET + transport_len(protocol),
            ),
    {
        match ptr_at(packet, TRANSPORT_OFFSET, protocol.header_len()) {
            Ok(bytes) => Ok(TransportHeader { bytes }),
            Err(e) => Err(e),
        }
    }

    /// The source port, in host order: the first two bytes of either header.
    pub fn source_port(&self) -> (port: u16)
        ensures
            port == be_u16(self@, 0),
    {
        proof {
            use_type_invariant(self);
        }
        read_be_u16(self.bytes, 0)
    }
}

} // verus!
