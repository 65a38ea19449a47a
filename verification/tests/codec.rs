use bytes::BytesMut;
use mrbgpdv2::bgp_type::AutonomousSystemNumber;
use mrbgpdv2::bgp_type::HoldTime;
use mrbgpdv2::bgp_type::Version;
use mrbgpdv2::error::ConstructIpv4NetworkError;
use mrbgpdv2::error::ConvertBytesToBgpMessageError;
use mrbgpdv2::ipv4::networks_length;
use mrbgpdv2::ipv4::Ipv4Addr;
use mrbgpdv2::ipv4::Ipv4Network;
use mrbgpdv2::packets::header::Header;
use mrbgpdv2::packets::header::MessageType;
use mrbgpdv2::packets::keepalive::KeepaliveMessage;
use mrbgpdv2::packets::message::Message;
use mrbgpdv2::packets::open::OpenMessage;
use mrbgpdv2::packets::update::UpdateMessage;
use mrbgpdv2::path_attribute::attributes_length;
use mrbgpdv2::path_attribute::AsPath;
use mrbgpdv2::path_attribute::Origin;
use mrbgpdv2::path_attribute::PathAttribute;

fn marker() -> Vec<u8> {
    vec![0xFF; 16]
}

fn framed(length: u16, type_: u8, body: &[u8]) -> Vec<u8> {
    let mut bytes = marker();
    bytes.extend_from_slice(&length.to_be_bytes());
    bytes.push(type_);
    bytes.extend_from_slice(body);
    bytes
}

#[test]
fn convert_bytes_to_header_and_header_to_bytes() {
    let header = Header::new(29, MessageType::Open);
    let header_bytes: BytesMut = header.clone().to_bytes();
    let header2: Header = Header::from_bytes(&header_bytes).unwrap();

    assert_eq!(header, header2);
}

#[test]
fn convert_bytes_to_open_message_and_open_message_to_bytes() {
    let open_message = OpenMessage::new(64512.into(), "127.0.0.1".parse().unwrap());
    let open_message_bytes: BytesMut = open_message.clone().to_bytes();
    let open_message2: OpenMessage = OpenMessage::from_bytes(&open_message_bytes).unwrap();

    assert_eq!(open_message, open_message2);
}

#[test]
fn convert_bytes_to_update_message_and_update_message_to_bytes() {
    let some_as: AutonomousSystemNumber = 64513.into();
    let local_as: AutonomousSystemNumber = 64514.into();
    let local_ip: Ipv4Addr = "10.200.100.3".parse().unwrap();

    let update_message_path_attributes = vec![
        PathAttribute::Origin(Origin::Igp),
        PathAttribute::AsPath(AsPath::AsSequence(vec![some_as, local_as])),
        PathAttribute::NextHop(local_ip),
    ];

    let update_message = UpdateMessage::new(
        update_message_path_attributes,
        vec!["10.100.220.0/24".parse().unwrap()],
        vec![],
    );

    let update_message_bytes: BytesMut = update_message.clone().to_bytes();
    let update_message2: UpdateMessage = UpdateMessage::from_bytes(&update_message_bytes).unwrap();
    assert_eq!(update_message, update_message2);
}

#[test]
fn header_is_nineteen_octets_with_an_all_ones_marker() {
    let bytes = Header::new(0x1234, MessageType::Update).to_bytes();
    assert_eq!(&bytes[..], &framed(0x1234, 2, &[])[..]);
    assert_eq!(bytes.len(), 19);
}

#[test]
fn header_marker_is_not_looked_at_on_receive() {
    let mut bytes = vec![0x01; 16];
    bytes.extend_from_slice(&[0x00, 0x13, 0x04]);
    assert_eq!(Header::decode(&bytes), Ok(Header::new(19, MessageType::Keepalive)));
}

#[test]
fn header_with_an_unknown_type_is_malformed() {
    for code in [0u8, 3, 5, 255] {
        assert_eq!(
            Header::decode(&framed(19, code, &[])),
            Err(ConvertBytesToBgpMessageError::MalformedHeader(code))
        );
    }
    assert_eq!(MessageType::from_code(1), Ok(MessageType::Open));
    assert_eq!(MessageType::from_code(2), Ok(MessageType::Update));
    assert_eq!(MessageType::from_code(4), Ok(MessageType::Keepalive));
    assert_eq!(MessageType::Open.code(), 1);
    assert_eq!(MessageType::Update.code(), 2);
    assert_eq!(MessageType::Keepalive.code(), 4);
}

#[test]
fn header_of_fewer_than_nineteen_octets_is_truncated() {
    assert_eq!(Header::decode(&[]), Err(ConvertBytesToBgpMessageError::Truncated));
    assert_eq!(Header::decode(&[0xFF; 18]), Err(ConvertBytesToBgpMessageError::Truncated));
    assert_eq!(Message::decode(&[0xFF; 18]), Err(ConvertBytesToBgpMessageError::Truncated));
}

#[test]
fn open_message_has_the_bytes_that_the_protocol_gives() {
    let open = OpenMessage::new(64512.into(), Ipv4Addr::new(127, 0, 0, 1));
    let bytes = open.to_bytes();
    let body = [0x04, 0xFC, 0x00, 0x00, 0xF0, 0x7F, 0x00, 0x00, 0x01, 0x00];
    assert_eq!(bytes.len(), 29);
    assert_eq!(&bytes[..], &framed(0x001D, 1, &body)[..]);
    assert_eq!(open.my_as_number(), AutonomousSystemNumber(64512));
    assert_eq!(open.hold_time(), HoldTime(240));
    assert_eq!(open.bgp_identifier(), Ipv4Addr(127, 0, 0, 1));
}

#[test]
fn keepalive_message_has_the_bytes_that_the_protocol_gives() {
    let bytes = KeepaliveMessage::new().to_bytes();
    assert_eq!(bytes.len(), 19);
    assert_eq!(&bytes[..], &framed(0x0013, 4, &[])[..]);
    assert_eq!(KeepaliveMessage::default(), KeepaliveMessage::new());
    assert_eq!(KeepaliveMessage::decode(&bytes[..]), Ok(KeepaliveMessage::new()));
}

#[test]
fn keepalive_decoding_refuses_other_kinds() {
    assert_eq!(
        KeepaliveMessage::decode(&framed(19, 1, &[])),
        Err(ConvertBytesToBgpMessageError::UnexpectedMessageType)
    );
    assert_eq!(
        KeepaliveMessage::decode(&framed(19, 9, &[])),
        Err(ConvertBytesToBgpMessageError::MalformedHeader(9))
    );
}

#[test]
fn open_decoding_keeps_the_optional_parameters() {
    let body = [0x04, 0xFC, 0x00, 0x00, 0xB4, 10, 0, 0, 1, 0x02, 0xAA, 0xBB];
    let bytes = framed(31, 1, &body);
    let open = OpenMessage::decode(&bytes).unwrap();
    assert_eq!(open.my_as_number(), AutonomousSystemNumber(64512));
    assert_eq!(open.hold_time(), HoldTime(180));
    assert_eq!(open.bgp_identifier(), Ipv4Addr(10, 0, 0, 1));
    assert_eq!(&open.to_bytes()[..], &bytes[..]);
}

#[test]
fn open_decoding_fails_on_short_or_unversioned_bytes() {
    let body = [0x04, 0xFC, 0x00, 0x00, 0xF0, 0x7F, 0x00, 0x00, 0x01];
    assert_eq!(
        OpenMessage::decode(&framed(28, 1, &body)),
        Err(ConvertBytesToBgpMessageError::Truncated)
    );
    for version in [0u8, 5, 200] {
        let body = [version, 0xFC, 0x00, 0x00, 0xF0, 0x7F, 0x00, 0x00, 0x01, 0x00];
        assert_eq!(
            OpenMessage::decode(&framed(29, 1, &body)),
            Err(ConvertBytesToBgpMessageError::InvalidVersion(version))
        );
    }
    for version in [1u8, 2, 3, 4] {
        let body = [version, 0xFC, 0x00, 0x00, 0xF0, 0x7F, 0x00, 0x00, 0x01, 0x00];
        assert!(OpenMessage::decode(&framed(29, 1, &body)).is_ok());
    }
}

#[test]
fn version_and_hold_time_defaults() {
    assert_eq!(Version::new().number(), 4);
    assert_eq!(Version::default().number(), 4);
    assert_eq!(u8::from(Version::new()), 4);
    assert_eq!(Version::try_from(3).unwrap().number(), 3);
    assert_eq!(Version::try_from(0), Err(ConvertBytesToBgpMessageError::InvalidVersion(0)));
    assert_eq!(Version::try_from(5), Err(ConvertBytesToBgpMessageError::InvalidVersion(5)));
    assert_eq!(HoldTime::new(), HoldTime(240));
    assert_eq!(HoldTime::default(), HoldTime(240));
    assert_eq!(u16::from(HoldTime::from(7)), 7);
    assert_eq!(u16::from(AutonomousSystemNumber::from(64512)), 64512);
}

#[test]
fn network_encoding_takes_one_octet_for_each_eight_bits() {
    let cases: [(u8, usize); 9] =
        [(0, 1), (1, 2), (8, 2), (9, 3), (16, 3), (17, 4), (24, 4), (25, 5), (32, 5)];
    for (prefix, length) in cases {
        let network = Ipv4Network::new(Ipv4Addr(0, 0, 0, 0), prefix).unwrap();
        assert_eq!(network.bytes_len(), length);
        assert_eq!(network.encode().len(), length);
        assert_eq!(network.encode()[0], prefix);
    }
    let network: Ipv4Network = "10.100.220.0/24".parse().unwrap();
    assert_eq!(network.encode(), vec![24, 10, 100, 220]);
    let all = Ipv4Network::new(Ipv4Addr(0, 0, 0, 0), 0).unwrap();
    assert_eq!(all.encode(), vec![0]);
}

#[test]
fn network_round_trip_for_every_prefix_length() {
    for prefix in 0u8..=32 {
        let given = Ipv4Network::new(Ipv4Addr(0xC6, 0x33, 0x64, 0xFF), prefix).unwrap();
        let network = Ipv4Network::new(given.network(), prefix).unwrap();
        let bytes = network.encode();
        assert_eq!(bytes.len(), 1 + (prefix as usize + 7) / 8);
        assert_eq!(Ipv4Network::from_u8_slice(&bytes), Ok(vec![network]));
    }
}

#[test]
fn network_address_agrees_with_the_ipnetwork_crate() {
    let addresses = [[10u8, 1, 9, 32], [255, 255, 255, 255], [198, 51, 100, 77], [0, 0, 0, 1]];
    for octets in addresses {
        for prefix in 0u8..=32 {
            let theirs = ipnetwork::Ipv4Network::new(octets.into(), prefix).unwrap();
            let ours = Ipv4Network::new(
                Ipv4Addr(octets[0], octets[1], octets[2], octets[3]),
                prefix,
            )
            .unwrap();
            assert_eq!(ours.network().octets(), theirs.network().octets());
            assert_eq!(ours.ip().octets(), theirs.ip().octets());
            assert_eq!(ours.prefix(), theirs.prefix());
        }
    }
    assert!(ipnetwork::Ipv4Network::new([10, 0, 0, 0].into(), 33).is_err());
}

#[test]
fn network_encoding_clears_host_bits() {
    let network = Ipv4Network::new(Ipv4Addr(10, 0, 0, 1), 24).unwrap();
    assert_eq!(network.encode(), vec![24, 10, 0, 0]);
    let decoded = Ipv4Network::from_u8_slice(&network.encode()).unwrap();
    assert_eq!(decoded, vec![Ipv4Network::new(Ipv4Addr(10, 0, 0, 0), 24).unwrap()]);
    assert_ne!(decoded, vec![network]);
}

#[test]
fn network_address_has_no_host_bits() {
    assert!(Ipv4Network::new(Ipv4Addr(10, 0, 0, 0), 8).unwrap().is_network_address());
    assert!(Ipv4Network::new(Ipv4Addr(10, 0, 0, 0), 7).unwrap().is_network_address());
    assert!(!Ipv4Network::new(Ipv4Addr(10, 0, 0, 0), 6).unwrap().is_network_address());
    assert!(!Ipv4Network::new(Ipv4Addr(10, 0, 0, 1), 24).unwrap().is_network_address());
    assert!(Ipv4Network::new(Ipv4Addr(10, 0, 0, 1), 32).unwrap().is_network_address());
    assert!(Ipv4Network::new(Ipv4Addr(0, 0, 0, 0), 0).unwrap().is_network_address());
    assert!(!Ipv4Network::new(Ipv4Addr(128, 0, 0, 0), 0).unwrap().is_network_address());
    assert!(Ipv4Network::new(Ipv4Addr(192, 168, 1, 128), 25).unwrap().is_network_address());
    assert!(!Ipv4Network::new(Ipv4Addr(192, 168, 1, 64), 25).unwrap().is_network_address());
}

#[test]
fn network_with_too_long_a_prefix_is_refused() {
    assert_eq!(
        Ipv4Network::new(Ipv4Addr(10, 0, 0, 0), 33),
        Err(ConstructIpv4NetworkError::InvalidPrefix(33))
    );
    assert_eq!(
        Ipv4Network::from_u8_slice(&[33, 1, 2, 3, 4, 5]),
        Err(ConvertBytesToBgpMessageError::InvalidPrefixLength(33))
    );
    assert_eq!(
        Ipv4Network::from_u8_slice(&[24, 10, 0]),
        Err(ConvertBytesToBgpMessageError::Truncated)
    );
}

#[test]
fn networks_are_decoded_until_the_bytes_are_used_up() {
    let bytes = [0u8, 8, 10, 16, 172, 16, 24, 192, 168, 1, 32, 1, 2, 3, 4];
    let expected = vec![
        Ipv4Network::new(Ipv4Addr(0, 0, 0, 0), 0).unwrap(),
        Ipv4Network::new(Ipv4Addr(10, 0, 0, 0), 8).unwrap(),
        Ipv4Network::new(Ipv4Addr(172, 16, 0, 0), 16).unwrap(),
        Ipv4Network::new(Ipv4Addr(192, 168, 1, 0), 24).unwrap(),
        Ipv4Network::new(Ipv4Addr(1, 2, 3, 4), 32).unwrap(),
    ];
    assert_eq!(Ipv4Network::from_u8_slice(&bytes), Ok(expected));
    assert_eq!(Ipv4Network::from_u8_slice(&[]), Ok(vec![]));
}

#[test]
fn origin_attribute_bytes() {
    let cases = [(Origin::Igp, 0u8), (Origin::Egp, 1), (Origin::Incomplete, 2)];
    for (origin, code) in cases {
        let attribute = PathAttribute::Origin(origin);
        assert_eq!(attribute.encode(), vec![0x40, 1, 1, code]);
        assert_eq!(attribute.bytes_len(), 4);
        assert_eq!(PathAttribute::from_u8_slice(&attribute.encode()), Ok(vec![attribute]));
    }
    assert_eq!(
        PathAttribute::from_u8_slice(&[0x40, 1, 1, 3]),
        Err(ConvertBytesToBgpMessageError::InvalidOrigin(3))
    );
    assert_eq!(Origin::from_code(9), Err(ConvertBytesToBgpMessageError::InvalidOrigin(9)));
}

#[test]
fn next_hop_attribute_has_type_code_three() {
    let attribute = PathAttribute::NextHop(Ipv4Addr(10, 200, 100, 3));
    assert_eq!(attribute.encode(), vec![0x40, 3, 4, 10, 200, 100, 3]);
    assert_eq!(attribute.bytes_len(), 7);
    assert_eq!(PathAttribute::from_u8_slice(&attribute.encode()), Ok(vec![attribute]));
}

#[test]
fn as_path_attribute_bytes() {
    let sequence = PathAttribute::AsPath(AsPath::AsSequence(vec![64513.into(), 64514.into()]));
    assert_eq!(sequence.encode(), vec![0x40, 2, 6, 2, 2, 0xFC, 0x01, 0xFC, 0x02]);
    assert_eq!(sequence.bytes_len(), 9);
    assert_eq!(PathAttribute::from_u8_slice(&sequence.encode()), Ok(vec![sequence]));

    let set = PathAttribute::AsPath(AsPath::AsSet(vec![1.into(), 258.into()]));
    assert_eq!(set.encode(), vec![0x40, 2, 6, 1, 2, 0, 1, 1, 2]);
    assert_eq!(PathAttribute::from_u8_slice(&set.encode()), Ok(vec![set]));

    let empty = PathAttribute::AsPath(AsPath::AsSequence(vec![]));
    assert_eq!(empty.encode(), vec![0x40, 2, 2, 2, 0]);
    assert_eq!(PathAttribute::from_u8_slice(&empty.encode()), Ok(vec![empty]));
}

#[test]
fn as_path_longer_than_255_octets_takes_the_extended_length() {
    let short: Vec<AutonomousSystemNumber> = (0..126u16).map(AutonomousSystemNumber).collect();
    let attribute = PathAttribute::AsPath(AsPath::AsSequence(short));
    let bytes = attribute.encode();
    assert_eq!(&bytes[..3], &[0x40, 2, 254]);
    assert_eq!(bytes.len(), 3 + 254);
    assert_eq!(attribute.bytes_len(), bytes.len());
    assert_eq!(PathAttribute::from_u8_slice(&bytes), Ok(vec![attribute]));

    let long: Vec<AutonomousSystemNumber> = (0..127u16).map(AutonomousSystemNumber).collect();
    let attribute = PathAttribute::AsPath(AsPath::AsSequence(long));
    let bytes = attribute.encode();
    assert_eq!(&bytes[..4], &[0x50, 2, 0x01, 0x00]);
    assert_eq!(bytes.len(), 4 + 256);
    assert_eq!(attribute.bytes_len(), bytes.len());
    assert_eq!(PathAttribute::from_u8_slice(&bytes), Ok(vec![attribute]));

    let longer: Vec<AutonomousSystemNumber> = (0..300u16).map(AutonomousSystemNumber).collect();
    let attribute = PathAttribute::AsPath(AsPath::AsSet(longer));
    let bytes = attribute.encode();
    assert_eq!(&bytes[..6], &[0x50, 2, 0x02, 0x5A, 1, 44]);
    assert_eq!(bytes.len(), 4 + 602);
    assert_eq!(PathAttribute::from_u8_slice(&bytes), Ok(vec![attribute]));
}

#[test]
fn as_set_collapses_duplicates_on_parse() {
    let bytes = [0x40, 2, 10, 1, 4, 0, 7, 0, 3, 0, 7, 0, 3];
    let expected = PathAttribute::AsPath(AsPath::AsSet(vec![3.into(), 7.into()]));
    assert_eq!(PathAttribute::from_u8_slice(&bytes), Ok(vec![expected]));
    let as_sequence = [0x40, 2, 10, 2, 4, 0, 7, 0, 3, 0, 7, 0, 3];
    let expected = PathAttribute::AsPath(AsPath::AsSequence(vec![
        7.into(),
        3.into(),
        7.into(),
        3.into(),
    ]));
    assert_eq!(PathAttribute::from_u8_slice(&as_sequence), Ok(vec![expected]));
}

#[test]
fn as_path_decoding_failures() {
    assert_eq!(AsPath::decode(&[]), Err(ConvertBytesToBgpMessageError::Truncated));
    assert_eq!(
        AsPath::decode(&[3, 0]),
        Err(ConvertBytesToBgpMessageError::InvalidAsPathSegmentType(3))
    );
    assert_eq!(AsPath::decode(&[2, 1, 0]), Err(ConvertBytesToBgpMessageError::Truncated));
    assert_eq!(AsPath::decode(&[2]), Ok(AsPath::AsSequence(vec![])));
    assert_eq!(AsPath::decode(&[2, 9, 0, 5]), Ok(AsPath::AsSequence(vec![5.into()])));
}

#[test]
fn as_path_push_and_contains() {
    let mut sequence = AsPath::AsSequence(vec![2.into()]);
    sequence.push(1.into());
    sequence.add(2.into());
    assert_eq!(sequence, AsPath::AsSequence(vec![2.into(), 1.into(), 2.into()]));
    assert!(sequence.does_contain(1.into()));
    assert!(!sequence.does_contain(3.into()));

    let mut set = AsPath::AsSet(vec![]);
    for number in [5u16, 1, 9, 5, 3, 1] {
        set.push(number.into());
    }
    assert_eq!(set, AsPath::AsSet(vec![1.into(), 3.into(), 5.into(), 9.into()]));
    assert!(set.does_contain(9.into()));
    assert!(!set.does_contain(2.into()));
    assert!(set.equals(&set.clone()));
    assert!(!set.equals(&sequence));
}

#[test]
fn unknown_attribute_is_kept_whole() {
    let raw = vec![0xC0, 8, 4, 0xFF, 0xFF, 0xFF, 0x01];
    let attribute = PathAttribute::Unknown(raw.clone());
    assert_eq!(PathAttribute::from_u8_slice(&raw), Ok(vec![attribute.clone()]));
    assert_eq!(attribute.encode(), raw);
    assert_eq!(attribute.bytes_len(), raw.len());

    let extended = vec![0x90, 14, 0x00, 0x03, 1, 2, 3];
    assert_eq!(
        PathAttribute::from_u8_slice(&extended),
        Ok(vec![PathAttribute::Unknown(extended.clone())])
    );
}

#[test]
fn attribute_decoding_failures() {
    assert_eq!(PathAttribute::from_u8_slice(&[]), Ok(vec![]));
    assert_eq!(
        PathAttribute::from_u8_slice(&[0x40, 1]),
        Err(ConvertBytesToBgpMessageError::Truncated)
    );
    assert_eq!(
        PathAttribute::from_u8_slice(&[0x50, 2, 0]),
        Err(ConvertBytesToBgpMessageError::Truncated)
    );
    assert_eq!(
        PathAttribute::from_u8_slice(&[0x40, 3, 4, 10, 0, 0]),
        Err(ConvertBytesToBgpMessageError::Truncated)
    );
    assert_eq!(
        PathAttribute::from_u8_slice(&[0x40, 3, 3, 10, 0, 0]),
        Err(ConvertBytesToBgpMessageError::Truncated)
    );
    assert_eq!(
        PathAttribute::from_u8_slice(&[0x40, 1, 0]),
        Err(ConvertBytesToBgpMessageError::Truncated)
    );
    assert_eq!(
        PathAttribute::from_u8_slice(&[0x40, 2, 2, 7, 0]),
        Err(ConvertBytesToBgpMessageError::InvalidAsPathSegmentType(7))
    );
}

#[test]
fn update_message_bytes_and_lengths() {
    let update = UpdateMessage::new(
        vec![
            PathAttribute::Origin(Origin::Igp),
            PathAttribute::AsPath(AsPath::AsSequence(vec![64513.into()])),
            PathAttribute::NextHop(Ipv4Addr(10, 200, 100, 3)),
        ],
        vec!["10.100.220.0/24".parse().unwrap()],
        vec!["192.168.0.0/16".parse().unwrap()],
    );
    assert_eq!(update.withdrawn_routes_length, 3);
    assert_eq!(update.path_attributes_length, 4 + 7 + 7);
    assert_eq!(update.header, Header::new(19 + 2 + 3 + 2 + 18 + 4, MessageType::Update));
    let mut body = vec![0, 3, 16, 192, 168, 0, 18];
    body.extend_from_slice(&[0x40, 1, 1, 0]);
    body.extend_from_slice(&[0x40, 2, 4, 2, 1, 0xFC, 0x01]);
    body.extend_from_slice(&[0x40, 3, 4, 10, 200, 100, 3]);
    body.extend_from_slice(&[24, 10, 100, 220]);
    let expected = framed(48, 2, &body);
    assert_eq!(&update.to_bytes()[..], &expected[..]);
    assert_eq!(UpdateMessage::decode(&expected), Ok(update.clone()));
    assert_eq!(Message::decode(&expected), Ok(Message::Update(update)));
}

#[test]
fn update_decoding_fails_on_truncated_bytes() {
    let update = UpdateMessage::new(
        vec![PathAttribute::Origin(Origin::Igp)],
        vec!["10.100.220.0/24".parse().unwrap()],
        vec!["192.168.0.0/16".parse().unwrap()],
    );
    let bytes = update.to_bytes();
    for cut in [19usize, 20, 22, 24, 25, 27, 29, 31] {
        assert_eq!(
            UpdateMessage::decode(&bytes[..cut]),
            Err(ConvertBytesToBgpMessageError::Truncated),
            "cut at {}",
            cut
        );
    }
    assert_eq!(UpdateMessage::decode(&bytes[..]), Ok(update));
    let mut bad_prefix = bytes[..].to_vec();
    bad_prefix[21] = 40;
    assert_eq!(
        UpdateMessage::decode(&bad_prefix),
        Err(ConvertBytesToBgpMessageError::InvalidPrefixLength(40))
    );
}

#[test]
fn every_message_made_by_a_constructor_round_trips() {
    let messages = vec![
        Message::new_open(64512.into(), Ipv4Addr(127, 0, 0, 1)),
        Message::new_keepalive(),
        Message::Update(UpdateMessage::new(
            vec![
                PathAttribute::Origin(Origin::Incomplete),
                PathAttribute::AsPath(AsPath::AsSet(vec![7.into(), 64512.into()])),
                PathAttribute::NextHop(Ipv4Addr(192, 0, 2, 1)),
            ],
            vec!["10.0.0.0/8".parse().unwrap(), "0.0.0.0/0".parse().unwrap()],
            vec!["172.16.0.0/12".parse().unwrap()],
        )),
        Message::Update(UpdateMessage::new(vec![], vec![], vec![])),
    ];
    for message in messages {
        let bytes = message.to_bytes();
        assert_eq!(Message::from_bytes(&bytes), Ok(message.clone()));
        let mut plain = Vec::new();
        message.encode_into(&mut plain);
        assert_eq!(&plain[..], &bytes[..]);
    }
}

#[test]
fn update_with_an_unknown_attribute_need_not_round_trip() {
    let update = UpdateMessage::new(
        vec![PathAttribute::Unknown(vec![0x40, 1, 1, 0])],
        vec![],
        vec![],
    );
    let decoded = UpdateMessage::decode(&update.to_bytes()).unwrap();
    assert_eq!(decoded.path_attributes, vec![PathAttribute::Origin(Origin::Igp)]);
    assert_ne!(decoded, update);
}

#[test]
fn length_fields_hold_the_wire_length_modulo_65536() {
    let sizes = [0usize, 1, 126, 127, 255, 256, 32766, 32767, 32768, 40000];
    let mut attributes = vec![
        PathAttribute::Origin(Origin::Egp),
        PathAttribute::NextHop(Ipv4Addr(1, 2, 3, 4)),
        PathAttribute::Unknown(vec![0xC0; 70000]),
        PathAttribute::Unknown(vec![]),
    ];
    for size in sizes {
        let members: Vec<AutonomousSystemNumber> =
            (0..size).map(|i| AutonomousSystemNumber(i as u16)).collect();
        attributes.push(PathAttribute::AsPath(AsPath::AsSequence(members)));
    }
    let mut total = 0usize;
    for attribute in &attributes {
        let length = attribute.encode().len();
        assert_eq!(attribute.bytes_len(), length);
        assert_eq!(attribute.length_field() as usize, length % 65536);
        total += length;
    }
    assert_eq!(attributes_length(&attributes) as usize, total % 65536);
    assert_eq!(attributes_length(&vec![]), 0);

    let networks: Vec<Ipv4Network> = (0..20000u32)
        .map(|i| Ipv4Network::new(Ipv4Addr(10, (i >> 8) as u8, i as u8, 0), (i % 33) as u8).unwrap())
        .collect();
    let total: usize = networks.iter().map(|n| n.bytes_len()).sum();
    assert!(total > 65536);
    assert_eq!(networks_length(&networks) as usize, total % 65536);
    assert_eq!(networks_length(&vec![]), 0);

    let update = UpdateMessage::new(attributes, networks.clone(), networks);
    let wire = update.to_bytes().len();
    assert_eq!(update.header.length as usize, wire % 65536);
}
