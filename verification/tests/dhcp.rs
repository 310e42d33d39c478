use dhcproto::{v4, Decodable, Decoder, Encodable, Encoder};
use sonar::addr::{IpAddr, Ipv4Addr, MacAddr};
use sonar::dhcp::{
    build_dhcp_discover, build_dhcp_message, offer_from_fields, parse_dhcp_offer, DhcpOfferInfo,
};
use sonar::steps::{datagram_event, still_in_time, Event};

const MAC: MacAddr = MacAddr(0x02, 0x11, 0x22, 0x33, 0x44, 0x55);

fn encoded(kind: v4::MessageType, xid: u32, server: Option<u32>) -> Vec<u8> {
    let mut message = v4::Message::new_with_id(
        xid,
        0u32.into(),
        0xc0a8_0164u32.into(),
        0u32.into(),
        0u32.into(),
        &MAC.octets(),
    );
    message.opts_mut().insert(v4::DhcpOption::MessageType(kind));
    if let Some(bits) = server {
        message.opts_mut().insert(v4::DhcpOption::ServerIdentifier(bits.into()));
    }
    message.opts_mut().insert(v4::DhcpOption::AddressLeaseTime(3600));
    let mut bytes: Vec<u8> = Vec::new();
    message.encode(&mut Encoder::new(&mut bytes)).unwrap();
    bytes
}

/// A message with the given bytes after the magic cookie.
fn with_options(options: &[u8]) -> Vec<u8> {
    let mut bytes: Vec<u8> = vec![0u8; 236];
    bytes[0] = 2;
    bytes[1] = 1;
    bytes[2] = 6;
    bytes[4..8].copy_from_slice(&[0xde, 0xad, 0xbe, 0xef]);
    bytes.extend_from_slice(&[99, 130, 83, 99]);
    bytes.extend_from_slice(options);
    bytes
}

#[test]
fn discover_message_decodes() {
    let bytes = build_dhcp_message(MAC, 0x1234_5678);
    assert_eq!(bytes.len(), 257);
    let message = v4::Message::decode(&mut Decoder::new(&bytes)).unwrap();
    assert_eq!(message.xid(), 0x1234_5678);
    assert_eq!(message.opcode(), v4::Opcode::BootRequest);
    assert!(message.flags().broadcast());
    assert_eq!(message.chaddr(), &MAC.octets()[..]);
    assert_eq!(u32::from(message.ciaddr()), 0);
    assert_eq!(u32::from(message.yiaddr()), 0);
    assert_eq!(u32::from(message.siaddr()), 0);
    assert_eq!(u32::from(message.giaddr()), 0);
    assert_eq!(
        message.opts().get(v4::OptionCode::MessageType),
        Some(&v4::DhcpOption::MessageType(v4::MessageType::Discover))
    );
    assert_eq!(
        message.opts().get(v4::OptionCode::ParameterRequestList),
        Some(&v4::DhcpOption::ParameterRequestList(vec![
            v4::OptionCode::SubnetMask,
            v4::OptionCode::Router,
            v4::OptionCode::DomainNameServer,
            v4::OptionCode::DomainName,
            v4::OptionCode::AddressLeaseTime,
            v4::OptionCode::Renewal,
            v4::OptionCode::Rebinding,
        ]))
    );
    assert_eq!(
        message.opts().get(v4::OptionCode::MaxMessageSize),
        Some(&v4::DhcpOption::MaxMessageSize(1500))
    );
    assert_eq!(message.opts().iter().count(), 3);
}

#[test]
fn discover_message_has_the_right_head() {
    let bytes = build_dhcp_message(MAC, 0x0102_0304);
    assert_eq!(&bytes[..12], &[1, 1, 6, 0, 1, 2, 3, 4, 0, 0, 0x80, 0]);
    assert_eq!(&bytes[12..28], &[0u8; 16]);
    assert_eq!(&bytes[28..34], &MAC.octets());
    assert_eq!(&bytes[34..236], &[0u8; 202][..]);
    assert_eq!(&bytes[236..240], &[99, 130, 83, 99]);
    let parts: [&[u8]; 3] = [
        &[53, 1, 1],
        &[55, 7, 1, 3, 6, 15, 51, 58, 59],
        &[57, 2, 0x05, 0xdc],
    ];
    for part in parts {
        assert!(bytes[240..256].windows(part.len()).any(|window| window == part));
    }
    assert_eq!(bytes[256], 255);
}

#[test]
fn own_discover_is_no_offer() {
    let bytes = build_dhcp_message(MAC, 7);
    assert_eq!(parse_dhcp_offer(&bytes), None);
}

#[test]
fn message_type_makes_the_offer() {
    let mut bytes = build_dhcp_message(MAC, 0x0bad_cafe);
    let at: usize = 240 + bytes[240..].iter().position(|byte| *byte == 53).unwrap();
    assert_eq!(bytes[at + 2], 1);
    bytes[at + 2] = 2;
    assert_eq!(
        parse_dhcp_offer(&bytes),
        Some(DhcpOfferInfo { xid: 0x0bad_cafe, server_id: None })
    );
    bytes[at + 2] = 5;
    assert_eq!(parse_dhcp_offer(&bytes), None);
}

#[test]
fn discover_is_broadcast() {
    let frame = build_dhcp_discover(MAC, 0xcafe_f00d);
    assert_eq!(frame.len(), 42 + 257);
    assert_eq!(&frame[..6], &[0xff; 6]);
    assert_eq!(&frame[6..12], &MAC.octets());
    assert_eq!(&frame[26..30], &[0, 0, 0, 0]);
    assert_eq!(&frame[30..34], &[255, 255, 255, 255]);
    assert_eq!(&frame[34..38], &[0, 68, 0, 67]);
    let message = v4::Message::decode(&mut Decoder::new(&frame[42..])).unwrap();
    assert_eq!(message.xid(), 0xcafe_f00d);
}

#[test]
fn offer_is_read() {
    let bytes = encoded(v4::MessageType::Offer, 0x0a0b_0c0d, Some(0xc0a8_0101));
    let expected = DhcpOfferInfo {
        xid: 0x0a0b_0c0d,
        server_id: Some(Ipv4Addr::new(192, 168, 1, 1)),
    };
    assert_eq!(parse_dhcp_offer(&bytes), Some(expected));
}

#[test]
fn offer_without_server_identifier_is_read() {
    let bytes = encoded(v4::MessageType::Offer, 5, None);
    assert_eq!(parse_dhcp_offer(&bytes), Some(DhcpOfferInfo { xid: 5, server_id: None }));
}

#[test]
fn other_messages_are_no_offer() {
    let kinds = vec![
        v4::MessageType::Discover,
        v4::MessageType::Request,
        v4::MessageType::Ack,
        v4::MessageType::Nak,
        v4::MessageType::Inform,
    ];
    for kind in kinds {
        assert_eq!(parse_dhcp_offer(&encoded(kind, 5, Some(1))), None);
    }
    assert_eq!(parse_dhcp_offer(&with_options(&[255])), None);
    assert_eq!(parse_dhcp_offer(&with_options(&[])), None);
}

#[test]
fn short_datagram_is_no_offer() {
    let bytes = encoded(v4::MessageType::Offer, 5, Some(1));
    assert_eq!(parse_dhcp_offer(&bytes[..239]), None);
    assert_eq!(parse_dhcp_offer(&[]), None);
}

#[test]
fn raw_offer_is_read() {
    let bytes = with_options(&[0, 53, 1, 2, 54, 4, 10, 0, 0, 138, 255]);
    assert_eq!(
        parse_dhcp_offer(&bytes),
        Some(DhcpOfferInfo { xid: 0xdead_beef, server_id: Some(Ipv4Addr::new(10, 0, 0, 138)) })
    );
}

/// The offer that is read from a message with these options.
fn read(options: &[u8]) -> Option<DhcpOfferInfo> {
    parse_dhcp_offer(&with_options(options))
}

const BARE: Option<DhcpOfferInfo> = Some(DhcpOfferInfo { xid: 0xdead_beef, server_id: None });
const NAMED: Option<DhcpOfferInfo> = Some(DhcpOfferInfo {
    xid: 0xdead_beef,
    server_id: Some(Ipv4Addr { bits: 0x0a00_008a }),
});

#[test]
fn option_that_is_too_long_is_passed_over() {
    let ill_sized: Vec<Vec<u8>> = vec![
        vec![80, 1, 0],
        vec![80, 0, 80, 2, 7, 7],
        vec![94, 4, 1, 2, 3, 4],
        vec![94, 3, 1, 2, 3, 94, 1, 0],
        vec![152, 5, 0, 0, 0, 0, 0],
        vec![155, 4, 0, 0, 0, 0, 155, 1, 54],
    ];
    for part in ill_sized {
        let mut front = part.clone();
        front.extend_from_slice(&[53, 1, 2, 54, 4, 10, 0, 0, 138, 255]);
        assert_eq!(read(&front), NAMED);
        let mut middle: Vec<u8> = vec![53, 1, 2];
        middle.extend_from_slice(&part);
        middle.extend_from_slice(&[54, 4, 10, 0, 0, 138]);
        assert_eq!(read(&middle), NAMED);
    }
}

#[test]
fn option_that_is_too_short_ends_the_reading() {
    let ill_sized: Vec<Vec<u8>> = vec![
        vec![81, 2, 0, 0],
        vec![81, 0],
        vec![94, 2, 1, 2],
        vec![152, 3, 0, 0, 0],
        vec![153, 0],
        vec![154, 1, 0, 154, 2, 0, 0],
    ];
    for part in ill_sized {
        let mut front = part.clone();
        front.extend_from_slice(&[53, 1, 2, 54, 4, 10, 0, 0, 138, 255]);
        assert_eq!(read(&front), None);
        let mut middle: Vec<u8> = vec![53, 1, 2];
        middle.extend_from_slice(&part);
        middle.extend_from_slice(&[54, 4, 10, 0, 0, 138]);
        assert_eq!(read(&middle), BARE);
    }
}

#[test]
fn ill_sized_option_still_keeps_its_neighbours_apart() {
    // one after the other the two parts would be a server identifier of five bytes
    assert_eq!(read(&[53, 1, 2, 54, 4, 10, 0, 0, 138, 80, 1, 9, 54, 1, 7, 255]), NAMED);
}

#[test]
fn ill_sized_option_behind_an_unreadable_one_does_not_matter() {
    assert_eq!(read(&[53, 1, 2, 1, 1, 255, 80, 1, 0, 255]), BARE);
    assert_eq!(read(&[53, 1, 2, 1, 1, 255, 94, 1, 0, 54, 4, 10, 0, 0, 138]), BARE);
}

#[test]
fn offer_with_an_ill_sized_option_becomes_an_event() {
    let bytes = with_options(&[53, 1, 2, 80, 1, 0, 54, 4, 10, 0, 0, 138, 255]);
    match datagram_event(&bytes, IpAddr::V4(Ipv4Addr::unspecified()), 3) {
        Event::Datagram { offer, .. } => assert_eq!(offer, NAMED),
        _ => panic!("not a datagram"),
    }
}

#[test]
fn fitting_options_are_read() {
    let fitting: Vec<Vec<u8>> = vec![
        vec![53, 1, 2, 80, 0, 255],
        vec![53, 1, 2, 81, 3, 0, 0, 0, 255],
        vec![53, 1, 2, 94, 3, 1, 2, 3, 255],
        vec![53, 1, 2, 94, 1, 1, 94, 2, 2, 3, 255],
        vec![53, 1, 2, 152, 4, 0, 0, 0, 0, 255],
        vec![53, 1, 2, 255, 80, 9],
        vec![53, 1, 2, 94, 9, 1],
        vec![53, 1, 2, 12],
        vec![53, 1, 2],
    ];
    for options in fitting {
        assert_eq!(read(&options), BARE);
    }
}

#[test]
fn every_datagram_can_be_read() {
    for code in 0..=255u8 {
        for size in 0..6u8 {
            let mut options: Vec<u8> = vec![53, 1, 2, code, size];
            options.extend(std::iter::repeat(code).take(size.into()));
            assert!(read(&options) == BARE || read(&options).is_none() || code == 54);
        }
    }
}

#[test]
fn offer_depends_on_the_message_type_alone() {
    assert_eq!(offer_from_fields(None), None);
    assert_eq!(offer_from_fields(Some((1, None, Some(2)))), None);
    assert_eq!(offer_from_fields(Some((1, Some(5), Some(2)))), None);
    assert_eq!(
        offer_from_fields(Some((1, Some(2), None))),
        Some(DhcpOfferInfo { xid: 1, server_id: None })
    );
    assert_eq!(
        offer_from_fields(Some((1, Some(2), Some(3)))),
        Some(DhcpOfferInfo { xid: 1, server_id: Some(Ipv4Addr { bits: 3 }) })
    );
}

#[test]
fn datagram_becomes_an_event() {
    let bytes = encoded(v4::MessageType::Offer, 9, Some(0x0a00_0001));
    let event = datagram_event(&bytes, IpAddr::V4(Ipv4Addr::new(10, 0, 0, 2)), 44);
    match event {
        Event::Datagram { offer, source: IpAddr::V4(ip), now } => {
            assert_eq!(
                offer,
                Some(DhcpOfferInfo { xid: 9, server_id: Some(Ipv4Addr::new(10, 0, 0, 1)) })
            );
            assert_eq!(ip, Ipv4Addr::new(10, 0, 0, 2));
            assert_eq!(now, 44);
        }
        _ => panic!("not a datagram"),
    }
}

#[test]
fn deadline_is_exclusive() {
    assert!(still_in_time(10, 10, 5));
    assert!(still_in_time(10, 14, 5));
    assert!(!still_in_time(10, 15, 5));
    assert!(!still_in_time(10, 16, 5));
    assert!(still_in_time(10, 3, 5));
    assert!(!still_in_time(0, 0, 0));
    assert!(still_in_time(u64::MAX, u64::MAX, 1));
}
