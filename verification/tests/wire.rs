use pnet::packet::ethernet::{EtherTypes, EthernetPacket, MutableEthernetPacket};
use pnet::packet::ip::IpNextHeaderProtocols;
use pnet::packet::ipv4::{Ipv4Packet, MutableIpv4Packet};
use pnet::packet::udp::{MutableUdpPacket, UdpPacket};
use pnet::packet::Packet;
use sonar::addr::{IpAddr, Ipv4Addr, MacAddr};
use sonar::wire::{
    build_arp_request, build_eth_ip_udp_frame, frame_with_identification, parse_arp_reply, Route,
};

const SRC: MacAddr = MacAddr(0x02, 0x11, 0x22, 0x33, 0x44, 0x55);
const DST: MacAddr = MacAddr(0xa0, 0xb1, 0xc2, 0xd3, 0xe4, 0xf5);

fn pnet_mac(mac: MacAddr) -> pnet::util::MacAddr {
    pnet::util::MacAddr::new(mac.0, mac.1, mac.2, mac.3, mac.4, mac.5)
}

fn route() -> Route {
    Route {
        src_mac: SRC,
        dst_mac: DST,
        src_ip: Ipv4Addr::new(192, 168, 1, 7),
        dst_ip: Ipv4Addr::new(10, 20, 30, 40),
        src_port: 68,
        dst_port: 67,
    }
}

/// The same frame, made with pnet's packet types.
fn pnet_frame(route: &Route, identification: u16, payload: &[u8]) -> Vec<u8> {
    let mut udp_buf: Vec<u8> = vec![0u8; 8 + payload.len()];
    let udp_len: u16 = udp_buf.len() as u16;
    let mut udp = MutableUdpPacket::new(&mut udp_buf).unwrap();
    udp.set_source(route.src_port);
    udp.set_destination(route.dst_port);
    udp.set_length(udp_len);
    udp.set_payload(payload);
    udp.set_checksum(0);

    let mut ip_buf: Vec<u8> = vec![0u8; 20 + udp_buf.len()];
    let ip_len: u16 = ip_buf.len() as u16;
    let mut ip = MutableIpv4Packet::new(&mut ip_buf).unwrap();
    ip.set_version(4);
    ip.set_header_length(5);
    ip.set_total_length(ip_len);
    ip.set_identification(identification);
    ip.set_ttl(128);
    ip.set_next_level_protocol(IpNextHeaderProtocols::Udp);
    ip.set_source(route.src_ip.bits.into());
    ip.set_destination(route.dst_ip.bits.into());
    ip.set_payload(&udp_buf);
    let sum: u16 = pnet::packet::ipv4::checksum(&ip.to_immutable());
    ip.set_checksum(sum);

    let mut eth_buf: Vec<u8> = vec![0u8; 14 + ip_buf.len()];
    let mut eth = MutableEthernetPacket::new(&mut eth_buf).unwrap();
    eth.set_destination(pnet_mac(route.dst_mac));
    eth.set_source(pnet_mac(route.src_mac));
    eth.set_ethertype(EtherTypes::Ipv4);
    eth.set_payload(&ip_buf);
    if eth_buf.len() < 60 {
        eth_buf.resize(60, 0u8);
    }
    eth_buf
}

#[test]
fn frame_equals_the_one_of_pnet() {
    let sizes: [usize; 7] = [0, 1, 17, 18, 19, 257, 1472];
    let identifications: [u16; 4] = [0, 1, 0xbeef, 0xffff];
    for size in sizes {
        let payload: Vec<u8> = (0..size).map(|i| (i * 7 + 3) as u8).collect();
        for identification in identifications {
            assert_eq!(
                frame_with_identification(&route(), &payload, identification),
                pnet_frame(&route(), identification, &payload)
            );
        }
    }
}

#[test]
fn largest_payload_fits() {
    let payload: Vec<u8> = vec![0x5au8; 65507];
    let frame = frame_with_identification(&route(), &payload, 9);
    assert_eq!(frame.len(), 65549);
    assert_eq!(&frame[16..18], &[0xff, 0xff]);
    assert_eq!(frame, pnet_frame(&route(), 9, &payload));
}

#[test]
fn short_frame_is_padded_to_sixty_bytes() {
    assert_eq!(frame_with_identification(&route(), &[], 1).len(), 60);
    assert_eq!(frame_with_identification(&route(), &[1u8; 18], 1).len(), 60);
    assert_eq!(frame_with_identification(&route(), &[1u8; 19], 1).len(), 61);
    assert_eq!(&frame_with_identification(&route(), &[9u8], 1)[42..], &{
        let mut tail = [0u8; 18];
        tail[0] = 9;
        tail
    });
}

#[test]
fn header_checksum_has_the_known_value() {
    // 4500 001c 0001 0000 8011 .... c0a8 0107 0a14 1e28, complemented sum
    let frame = frame_with_identification(&route(), &[], 1);
    assert_eq!(
        &frame[14..34],
        &[
            0x45, 0x00, 0x00, 0x1c, 0x00, 0x01, 0x00, 0x00, 0x80, 0x11, 0x50, 0xe5, 0xc0, 0xa8,
            0x01, 0x07, 0x0a, 0x14, 0x1e, 0x28
        ]
    );
}

#[test]
fn header_words_add_up() {
    for identification in [0u16, 7, 0x8000, 0xffff] {
        let frame = frame_with_identification(&route(), &[3u8; 100], identification);
        let mut sum: u32 = 0;
        for pair in frame[14..34].chunks(2) {
            sum += u32::from(u16::from_be_bytes([pair[0], pair[1]]));
        }
        while sum > 0xffff {
            sum = (sum >> 16) + (sum & 0xffff);
        }
        assert_eq!(sum, 0xffff);
    }
}

#[test]
fn random_identification_changes_nothing_else() {
    let payload: Vec<u8> = vec![1, 2, 3, 4];
    let way = route();
    let frame = build_eth_ip_udp_frame(
        way.src_mac, way.dst_mac, way.src_ip, way.dst_ip, way.src_port, way.dst_port, &payload,
    );
    let identification: u16 = u16::from_be_bytes([frame[18], frame[19]]);
    assert_eq!(frame, pnet_frame(&way, identification, &payload));
}

#[test]
fn identification_is_drawn_anew() {
    let way = route();
    let mut seen: Vec<u16> = Vec::new();
    for _ in 0..40 {
        let frame = build_eth_ip_udp_frame(
            way.src_mac, way.dst_mac, way.src_ip, way.dst_ip, way.src_port, way.dst_port, &[],
        );
        seen.push(u16::from_be_bytes([frame[18], frame[19]]));
    }
    assert!(seen.iter().any(|value| *value != seen[0]));
}

#[test]
fn built_frame_reads_back() {
    let payload: Vec<u8> = vec![7u8; 33];
    let frame = frame_with_identification(&route(), &payload, 77);
    let eth = EthernetPacket::new(&frame).unwrap();
    assert_eq!(eth.get_destination(), pnet_mac(DST));
    assert_eq!(eth.get_source(), pnet_mac(SRC));
    assert_eq!(eth.get_ethertype(), EtherTypes::Ipv4);
    let ip = Ipv4Packet::new(eth.payload()).unwrap();
    assert_eq!(ip.get_identification(), 77);
    assert_eq!(ip.get_ttl(), 128);
    assert_eq!(u32::from(ip.get_source()), route().src_ip.bits);
    assert_eq!(u32::from(ip.get_destination()), route().dst_ip.bits);
    assert_eq!(ip.get_checksum(), pnet::packet::ipv4::checksum(&ip));
    let udp = UdpPacket::new(ip.payload()).unwrap();
    assert_eq!(udp.get_source(), 68);
    assert_eq!(udp.get_destination(), 67);
    assert_eq!(udp.get_checksum(), 0);
    assert_eq!(udp.payload(), &payload[..]);
}

fn arp_reply(owner: MacAddr, ip: Ipv4Addr) -> Vec<u8> {
    let mut frame: Vec<u8> = Vec::new();
    frame.extend_from_slice(&SRC.octets());
    frame.extend_from_slice(&owner.octets());
    frame.extend_from_slice(&[0x08, 0x06, 0, 1, 8, 0, 6, 4, 0, 2]);
    frame.extend_from_slice(&owner.octets());
    frame.extend_from_slice(&ip.octets());
    frame.extend_from_slice(&SRC.octets());
    frame.extend_from_slice(&[192, 168, 1, 7]);
    frame
}

#[test]
fn arp_request_has_the_right_bytes() {
    let frame = build_arp_request(SRC, Ipv4Addr::new(192, 168, 1, 7), Ipv4Addr::new(192, 168, 1, 1));
    let expected: Vec<u8> = vec![
        0xff, 0xff, 0xff, 0xff, 0xff, 0xff, 0x02, 0x11, 0x22, 0x33, 0x44, 0x55, 0x08, 0x06, 0x00,
        0x01, 0x08, 0x00, 6, 4, 0x00, 0x01, 0x02, 0x11, 0x22, 0x33, 0x44, 0x55, 192, 168, 1, 7, 0,
        0, 0, 0, 0, 0, 192, 168, 1, 1,
    ];
    assert_eq!(frame, expected);
}

#[test]
fn arp_reply_tells_the_address() {
    let ip = Ipv4Addr::new(192, 168, 1, 1);
    let mut frame = arp_reply(DST, ip);
    assert_eq!(frame.len(), 42);
    assert_eq!(parse_arp_reply(&frame, ip), Some(DST));
    frame.resize(60, 0);
    assert_eq!(parse_arp_reply(&frame, ip), Some(DST));
}

#[test]
fn other_frames_are_no_arp_reply() {
    let ip = Ipv4Addr::new(192, 168, 1, 1);
    let frame = arp_reply(DST, ip);
    assert_eq!(parse_arp_reply(&frame, Ipv4Addr::new(192, 168, 1, 2)), None);
    assert_eq!(parse_arp_reply(&frame[..41], ip), None);
    assert_eq!(parse_arp_reply(&[], ip), None);
    assert_eq!(parse_arp_reply(&frame[..13], ip), None);
    let mut request = frame.clone();
    request[21] = 1;
    assert_eq!(parse_arp_reply(&request, ip), None);
    let mut operation = frame.clone();
    operation[20] = 1;
    assert_eq!(parse_arp_reply(&operation, ip), None);
    let mut ipv4 = frame.clone();
    ipv4[13] = 0;
    assert_eq!(parse_arp_reply(&ipv4, ip), None);
}

#[test]
fn own_arp_request_is_no_reply() {
    let ip = Ipv4Addr::new(192, 168, 1, 1);
    let frame = build_arp_request(SRC, ip, ip);
    assert_eq!(parse_arp_reply(&frame, ip), None);
}

#[test]
fn addresses_as_text() {
    let mut text = String::from("at ");
    Ipv4Addr::new(10, 0, 255, 9).push_text(&mut text);
    assert_eq!(text, "at 10.0.255.9");
    assert_eq!(DST.to_text(), "a0:b1:c2:d3:e4:f5");
    assert_eq!(MacAddr::zero().to_text(), "00:00:00:00:00:00");
    assert_eq!(MacAddr::broadcast().to_text(), "ff:ff:ff:ff:ff:ff");
    assert_eq!(MacAddr(1, 2, 3, 0x0a, 0x0b, 0x0c).to_text(), "01:02:03:0a:0b:0c");
}

#[test]
fn addresses_from_octets() {
    assert_eq!(Ipv4Addr::new(192, 168, 31, 1).bits, 0xc0a8_1f01);
    assert_eq!(Ipv4Addr::new(192, 168, 31, 1).octets(), [192, 168, 31, 1]);
    assert_eq!(Ipv4Addr::unspecified().octets(), [0, 0, 0, 0]);
    assert_eq!(Ipv4Addr::broadcast().octets(), [255, 255, 255, 255]);
    assert_eq!(DST.octets(), [0xa0, 0xb1, 0xc2, 0xd3, 0xe4, 0xf5]);
}

#[test]
fn address_of_the_other_version_has_no_ipv4() {
    let v6 = IpAddr::V6(String::from("fe80::1"));
    assert_eq!(v6.to_ipv4(), Ipv4Addr::unspecified());
    let mut text = String::new();
    v6.push_text(&mut text);
    IpAddr::V4(Ipv4Addr::new(1, 2, 3, 4)).push_text(&mut text);
    assert_eq!(text, "fe80::11.2.3.4");
    assert_eq!(IpAddr::V4(Ipv4Addr::new(1, 2, 3, 4)).to_ipv4(), Ipv4Addr::new(1, 2, 3, 4));
}
