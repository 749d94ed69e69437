//! The few fields of IPv4 and UDP headers that classification looks at.
use vstd::prelude::*;
use vstd::slice::slice_subrange;

verus! {

/// An IPv4 address.
#[derive(Debug, Clone, Copy, PartialEq, Eq, Structural)]
pub struct Ipv4Addr {
    /// The address as a number, first octet highest.
    pub bits: u32,
}

/// The number that four octets in network order hold.
pub open spec fn be32(a: int, b: int, c: int, d: int) -> int {
    a * 16777216 + b * 65536 + c * 256 + d
}

/// The number that two octets in network order hold.
pub open spec fn be16(a: int, b: int) -> int {
    a * 256 + b
}

impl Ipv4Addr {
    /// The address `a.b.c.d`.
    pub fn new(a: u8, b: u8, c: u8, d: u8) -> (res: Self)
        ensures
            res.bits == be32(a as int, b as int, c as int, d as int),
    {
        Ipv4Addr {
            bits: a as u32 * 16777216 + b as u32 * 65536 + c as u32 * 256 + d as u32,
        }
    }
}

/// The header length that the first octet of an IPv4 packet declares.
pub open spec fn header_len(packet: Seq<u8>) -> int {
    packet[0] as int % 16 * 4
}

/// `packet` begins with an IPv4 header that lies inside it.
pub open spec fn is_ipv4(packet: Seq<u8>) -> bool {
    &&& packet.len() >= 20
    &&& packet[0] as int / 16 == 4
    &&& packet.len() >= header_len(packet)
}

/// The source address of an IPv4 packet.
pub open spec fn src_bits(packet: Seq<u8>) -> int {
    be32(packet[12] as int, packet[13] as int, packet[14] as int, packet[15] as int)
}

/// The destination address of an IPv4 packet.
pub open spec fn dst_bits(packet: Seq<u8>) -> int {
    be32(packet[16] as int, packet[17] as int, packet[18] as int, packet[19] as int)
}

/// What follows the header of an IPv4 packet.
pub open spec fn ip_payload(packet: Seq<u8>) -> Seq<u8> {
    packet.subrange(header_len(packet), packet.len() as int)
}

/// The source port of a UDP datagram.
pub open spec fn src_port(datagram: Seq<u8>) -> int {
    be16(datagram[0] as int, datagram[1] as int)
}

/// The destination port of a UDP datagram.
pub open spec fn dst_port(datagram: Seq<u8>) -> int {
    be16(datagram[2] as int, datagram[3] as int)
}

/// What follows the header of a UDP datagram.
pub open spec fn udp_payload(datagram: Seq<u8>) -> Seq<u8> {
    datagram.subrange(8, datagram.len() as int)
}

/// Source, destination, protocol and payload of an IPv4 packet.
pub fn parse_ipv4(packet: &[u8]) -> (res: Option<(Ipv4Addr, Ipv4Addr, u8, &[u8])>)
    ensures
        res is Some <==> is_ipv4(packet@),
        res matches Some((src, dst, proto, payload)) ==> {
            &&& src.bits == src_bits(packet@)
            &&& dst.bits == dst_bits(packet@)
            &&& proto == packet@[9]
            &&& payload@ == ip_payload(packet@)
        },
{
    if packet.len() < 20 || packet[0] / 16 != 4 {
        return None;
    }
    let ihl: usize = (packet[0] % 16) as usize * 4;
    if packet.len() < ihl {
        return None;
    }
    let proto = packet[9];
    let src = Ipv4Addr::new(packet[12], packet[13], packet[14], packet[15]);
    let dst = Ipv4Addr::new(packet[16], packet[17], packet[18], packet[19]);
    Some((src, dst, proto, slice_subrange(packet, ihl, packet.len())))
}

/// Source port, destination port and payload of a UDP datagram.
pub fn parse_udp(payload: &[u8]) -> (res: Option<(u16, u16, &[u8])>)
    ensures
        res is Some <==> payload@.len() >= 8,
        res matches Some((src, dst, data)) ==> {
            &&& src == src_port(payload@)
            &&& dst == dst_port(payload@)
            &&& data@ == udp_payload(payload@)
        },
{
    if payload.len() < 8 {
        return None;
    }
    let src: u16 = payload[0] as u16 * 256 + payload[1] as u16;
    let dst: u16 = payload[2] as u16 * 256 + payload[3] as u16;
    Some((src, dst, slice_subrange(payload, 8, payload.len())))
}

/// The destination address, which decides for packets that are sent.
pub fn packet_dest_ipv4(packet: &[u8]) -> (res: Option<Ipv4Addr>)
    ensures
        res is Some <==> is_ipv4(packet@),
        res matches Some(dst) ==> dst.bits == dst_bits(packet@),
{
    match parse_ipv4(packet) {
        Some((_, dst, _, _)) => Some(dst),
        None => None,
    }
}

/// The source address, which decides for packets that are received.
pub fn packet_src_ipv4(packet: &[u8]) -> (res: Option<Ipv4Addr>)
    ensures
        res is Some <==> is_ipv4(packet@),
        res matches Some(src) ==> src.bits == src_bits(packet@),
{
    match parse_ipv4(packet) {
        Some((src, _, _, _)) => Some(src),
        None => None,
    }
}

/// The protocol number of UDP.
pub const UDP: u8 = 17;

/// The port of DNS.
pub const DNS_PORT: u16 = 53;

/// `packet` carries a UDP datagram from or to the DNS port.
pub open spec fn carries_dns(packet: Seq<u8>) -> bool {
    &&& is_ipv4(packet)
    &&& packet[9] == UDP
    &&& ip_payload(packet).len() >= 8
    &&& (src_port(ip_payload(packet)) == DNS_PORT || dst_port(ip_payload(packet)) == DNS_PORT)
}

/// The DNS message in `packet`, where it carries one.
pub fn dns_message(packet: &[u8]) -> (res: Option<&[u8]>)
    ensures
        res is Some <==> carries_dns(packet@),
        res matches Some(message) ==> message@ == udp_payload(ip_payload(packet@)),
{
    match parse_ipv4(packet) {
        None => None,
        Some((_, _, proto, payload)) => {
            if proto != UDP {
                return None;
            }
            match parse_udp(payload) {
                None => None,
                Some((src, dst, data)) => {
                    if src != DNS_PORT && dst != DNS_PORT {
                        return None;
                    }
                    Some(data)
                },
            }
        },
    }
}

/// Four octets make a number with the first of them highest.
pub proof fn octets_are_in_network_order(a: u8, b: u8, c: u8, d: u8)
    ensures
        be32(a as int, b as int, c as int, d as int) % 256 == d,
        be32(a as int, b as int, c as int, d as int) / 256 % 256 == c,
        be32(a as int, b as int, c as int, d as int) / 65536 % 256 == b,
        be32(a as int, b as int, c as int, d as int) / 16777216 == a,
        be16(a as int, b as int) % 256 == b,
        be16(a as int, b as int) / 256 == a,
{
}

/// The first octet and the length alone decide whether a packet is an IPv4
/// packet: the upper half of the octet is the version, the lower half the
/// length of the header in words of four octets.
pub proof fn version_and_length_decide(packet: Seq<u8>)
    ensures
        is_ipv4(packet) <==> packet.len() >= 20 && 64 <= packet[0] <= 79 && packet.len() >= 4 * (
        packet[0] - 64),
{
}

/// Whatever the rest of a packet holds makes no difference to whether it is an
/// IPv4 packet.
pub proof fn other_octets_do_not_decide(packet: Seq<u8>, other: Seq<u8>)
    requires
        packet.len() == other.len(),
        packet.len() > 0,
        packet[0] == other[0],
    ensures
        is_ipv4(packet) == is_ipv4(other),
{
}

/// The payload of an IPv4 packet begins where its first octet says, be that
/// inside the twenty octets that every header has.
pub proof fn payload_begins_where_the_first_octet_says(packet: Seq<u8>)
    requires
        packet.len() >= 20,
        64 <= packet[0] <= 79,
        packet.len() >= 4 * (packet[0] - 64),
    ensures
        ip_payload(packet) == packet.skip(4 * (packet[0] - 64)),
        src_bits(packet) == packet[12] * 16777216 + packet[13] * 65536 + packet[14] * 256
            + packet[15],
        dst_bits(packet) == packet[16] * 16777216 + packet[17] * 65536 + packet[18] * 256
            + packet[19],
{
    assert(ip_payload(packet) =~= packet.skip(4 * (packet[0] - 64)));
}

/// A header of any legal length with any payload behind it is an IPv4 packet;
/// its addresses and its payload are found where they stand.
pub proof fn header_and_payload_are_parted(header: Seq<u8>, payload: Seq<u8>)
    requires
        20 <= header.len() <= 60,
        header.len() % 4 == 0,
        header[0] == 64 + header.len() / 4,
    ensures
        is_ipv4(header + payload),
        ip_payload(header + payload) == payload,
        src_bits(header + payload) == header[12] * 16777216 + header[13] * 65536 + header[14] * 256
            + header[15],
        dst_bits(header + payload) == header[16] * 16777216 + header[17] * 65536 + header[18] * 256
            + header[19],
{
    assert(ip_payload(header + payload) =~= payload);
}

/// The ports and the data of a datagram are found where they stand, whatever
/// its length and checksum octets hold.
pub proof fn datagram_is_parted(header: Seq<u8>, data: Seq<u8>)
    requires
        header.len() == 8,
    ensures
        src_port(header + data) == header[0] * 256 + header[1],
        dst_port(header + data) == header[2] * 256 + header[3],
        udp_payload(header + data) == data,
{
    assert(udp_payload(header + data) =~= data);
}

/// An IPv4 packet with a datagram carries DNS exactly if its protocol is
/// seventeen and one of the ports is fifty-three. Nothing else in the headers
/// is asked for.
pub proof fn protocol_and_port_tell_dns(header: Seq<u8>, udp_header: Seq<u8>, data: Seq<u8>)
    requires
        20 <= header.len() <= 60,
        header.len() % 4 == 0,
        header[0] == 64 + header.len() / 4,
        udp_header.len() == 8,
    ensures
        carries_dns(header + (udp_header + data)) <==> header[9] == 17 && (udp_header[0] * 256
            + udp_header[1] == 53 || udp_header[2] * 256 + udp_header[3] == 53),
        udp_payload(ip_payload(header + (udp_header + data))) == data,
{
    header_and_payload_are_parted(header, udp_header + data);
    datagram_is_parted(udp_header, data);
}

/// What is no IPv4 packet, or has no room for a datagram's header, carries no
/// DNS.
pub proof fn without_a_datagram_there_is_no_dns(packet: Seq<u8>)
    requires
        packet.len() < 20 || packet[0] < 64 || packet[0] > 79 || packet.len() < 4 * (packet[0]
            - 64) + 8 || packet[9] != 17,
    ensures
        !carries_dns(packet),
{
}

} // verus!
