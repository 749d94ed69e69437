use rs_linkfusion::packet::{
    dns_message, packet_dest_ipv4, packet_src_ipv4, parse_ipv4, parse_udp, Ipv4Addr,
};

fn header() -> Vec<u8> {
    vec![0x45, 0, 0, 28, 0, 0, 0, 0, 64, 17, 0, 0, 192, 168, 1, 2, 8, 8, 4, 4]
}

#[test]
fn address_is_its_four_octets() {
    assert_eq!(Ipv4Addr::new(93, 184, 216, 34).bits, 0x5DB8_D822);
    assert_eq!(Ipv4Addr::new(255, 255, 255, 255).bits, u32::MAX);
    assert_eq!(Ipv4Addr::new(10, 66, 0, 1).bits, u32::from_be_bytes([10, 66, 0, 1]));
}

#[test]
fn addresses_are_read_from_the_header() {
    let packet = header();
    assert_eq!(packet_src_ipv4(&packet), Some(Ipv4Addr::new(192, 168, 1, 2)));
    assert_eq!(packet_dest_ipv4(&packet), Some(Ipv4Addr::new(8, 8, 4, 4)));
    let (src, dst, proto, payload) = parse_ipv4(&packet).unwrap();
    assert_eq!(src, Ipv4Addr::new(192, 168, 1, 2));
    assert_eq!(dst, Ipv4Addr::new(8, 8, 4, 4));
    assert_eq!(proto, 17);
    assert!(payload.is_empty());
}

#[test]
fn short_and_foreign_packets_are_refused() {
    let packet = header();
    assert!(parse_ipv4(&packet[..19]).is_none());
    assert!(parse_ipv4(&[]).is_none());
    let mut other = packet.clone();
    other[0] = 0x65;
    assert!(parse_ipv4(&other).is_none());
    assert_eq!(packet_src_ipv4(&other), None);
    assert_eq!(packet_dest_ipv4(&other), None);
    let mut long_header = packet.clone();
    long_header[0] = 0x46;
    assert!(parse_ipv4(&long_header).is_none());
    long_header.extend_from_slice(&[1, 2, 3, 4, 99]);
    assert_eq!(parse_ipv4(&long_header).unwrap().3, &[99]);
}

#[test]
fn header_length_below_twenty_is_taken_as_it_is() {
    let mut packet = header();
    packet[0] = 0x40;
    assert_eq!(parse_ipv4(&packet).unwrap().3, packet.as_slice());
}

#[test]
fn udp_ports_are_in_network_order() {
    let datagram = [0x00, 0x35, 0xC0, 0x01, 0, 9, 0, 0, 77];
    let (src, dst, data) = parse_udp(&datagram).unwrap();
    assert_eq!(src, 53);
    assert_eq!(dst, 0xC001);
    assert_eq!(data, &[77]);
    assert!(parse_udp(&datagram[..7]).is_none());
    assert_eq!(parse_udp(&datagram[..8]).unwrap().2, &[] as &[u8]);
}

#[test]
fn dns_message_is_found_behind_both_headers() {
    let mut packet = header();
    packet.extend_from_slice(&[0xC0, 0x01, 0x00, 0x35, 0, 0, 0, 0, 1, 2, 3]);
    assert_eq!(dns_message(&packet), Some([1u8, 2, 3].as_slice()));
    packet[23] = 0x36;
    assert_eq!(dns_message(&packet), None);
    packet[23] = 0x35;
    packet[9] = 6;
    assert_eq!(dns_message(&packet), None);
    packet[9] = 17;
    assert_eq!(dns_message(&packet[..27]), None);
}
