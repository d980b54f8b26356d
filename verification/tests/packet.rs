use knot::packet::{
    base_packet, data_packet, packet, BasePacket, BasePacketType, ControlPacketType, DataPacket,
    ParseResult,
};
use knot::serializer::serialize;

fn header() -> Vec<u8> {
    vec![0x4f, 0x45, 0x74, 0x03, 0x00, 0x01, 0x00]
}

fn with_header(rest: &[u8]) -> Vec<u8> {
    let mut v = header();
    v.extend_from_slice(rest);
    v
}

#[test]
fn parses_control_packets() {
    match base_packet(&[0, 0, 0x12, 0x34]) {
        ParseResult::Done(4, BasePacket::ControlPacket { controltype, seqnum, peer_id_new, controltype_id, .. }) => {
            assert_eq!(controltype, ControlPacketType::CONTROLTYPE_ACK);
            assert_eq!(controltype_id, 0);
            assert_eq!(seqnum, Some(0x1234));
            assert_eq!(peer_id_new, None);
        }
        other => panic!("{:?}", other),
    }
    match base_packet(&[0, 1, 0, 7]) {
        ParseResult::Done(4, BasePacket::ControlPacket { controltype, seqnum, peer_id_new, .. }) => {
            assert_eq!(controltype, ControlPacketType::CONTROLTYPE_SET_PEER_ID);
            assert_eq!(seqnum, None);
            assert_eq!(peer_id_new, Some(7));
        }
        other => panic!("{:?}", other),
    }
    match base_packet(&[0, 2, 9]) {
        ParseResult::Done(2, BasePacket::ControlPacket { controltype, .. }) => {
            assert_eq!(controltype, ControlPacketType::CONTROLTYPE_PING)
        }
        other => panic!("{:?}", other),
    }
    match base_packet(&[0, 3]) {
        ParseResult::Done(2, BasePacket::ControlPacket { controltype, .. }) => {
            assert_eq!(controltype, ControlPacketType::CONTROLTYPE_DISCO)
        }
        other => panic!("{:?}", other),
    }
}

#[test]
fn base_packet_incomplete_and_error() {
    assert_eq!(base_packet(&[]), ParseResult::Incomplete);
    assert_eq!(base_packet(&[0]), ParseResult::Incomplete);
    assert_eq!(base_packet(&[0, 0, 1]), ParseResult::Incomplete);
    assert_eq!(base_packet(&[0, 4]), ParseResult::Error);
    assert_eq!(base_packet(&[2, 0, 1, 0, 1]), ParseResult::Incomplete);
    assert_eq!(base_packet(&[3, 0]), ParseResult::Incomplete);
    assert_eq!(base_packet(&[3, 0, 1]), ParseResult::Incomplete);
    assert_eq!(base_packet(&[3, 0, 1, 9]), ParseResult::Error);
    assert_eq!(base_packet(&[4]), ParseResult::Error);
}

#[test]
fn parses_split_and_nested_reliable() {
    assert_eq!(
        base_packet(&[2, 0, 1, 0, 2, 0, 3, 0xff]),
        ParseResult::Done(
            7,
            BasePacket::SplitPacket {
                base_packet_type: BasePacketType::SPLIT,
                base_packet_id: 2,
                seqnum: 1,
                chunk_count: 2,
                chunk_num: 3,
            }
        )
    );
    assert_eq!(
        base_packet(&[3, 0, 5, 3, 0, 6, 1]),
        ParseResult::Done(
            7,
            BasePacket::ReliablePacket {
                base_packet_type: BasePacketType::RELIABLE,
                base_packet_id: 3,
                seqnum: 5,
                inner_base_packet: Some(Box::new(BasePacket::ReliablePacket {
                    base_packet_type: BasePacketType::RELIABLE,
                    base_packet_id: 3,
                    seqnum: 6,
                    inner_base_packet: Some(Box::new(BasePacket::OriginalPacket {
                        base_packet_type: BasePacketType::ORIGINAL,
                        base_packet_id: 1,
                    })),
                })),
            }
        )
    );
}

#[test]
fn parses_init_packet() {
    let mut bytes = vec![3, 0, 0x41, 1, 0, 2, 28, 0, 0, 0, 37, 0, 38, 0, 5];
    bytes.extend_from_slice(b"alice");
    bytes.extend_from_slice(&[0xee, 0xee]);
    let input = with_header(&bytes);
    match packet(&input) {
        ParseResult::Done(n, p) => {
            assert_eq!(n, input.len() - 2);
            assert_eq!(p.protocol_id, 0x4f457403);
            assert_eq!(p.sender_peer_id, 1);
            assert_eq!(p.channel, 0);
            match p.data_packet {
                Some(DataPacket::TOSERVER_INIT(init)) => {
                    assert_eq!(init.id, 2);
                    assert_eq!(init.max_client_serialization_version, 28);
                    assert_eq!(init.supp_compr_modes, 0);
                    assert_eq!(init.min_net_proto_version, 37);
                    assert_eq!(init.max_net_proto_version, 38);
                    assert_eq!(init.player_name, "alice");
                }
                other => panic!("{:?}", other),
            }
        }
        other => panic!("{:?}", other),
    }
}

#[test]
fn init_name_not_utf8_reads_as_empty() {
    let input = with_header(&[1, 0, 2, 28, 0, 0, 0, 37, 0, 38, 0, 2, 0xff, 0xfe]);
    match packet(&input).to_full_result() {
        Some(p) => match p.data_packet {
            Some(DataPacket::TOSERVER_INIT(init)) => assert_eq!(init.player_name, ""),
            other => panic!("{:?}", other),
        },
        None => panic!("no packet"),
    }
    let input = with_header(&[1, 0, 2, 28, 0, 0, 0, 37, 0, 38, 0, 2, 0xc3, 0xa9]);
    match packet(&input).to_full_result() {
        Some(p) => match p.data_packet {
            Some(DataPacket::TOSERVER_INIT(init)) => assert_eq!(init.player_name, "é"),
            other => panic!("{:?}", other),
        },
        None => panic!("no packet"),
    }
}

#[test]
fn parses_chat_message() {
    let input = with_header(&[3, 0, 9, 1, 0, 0x32, 0, 3, 0, b'y', 0, b'o', 0xd8, 0x3d, 0xde, 0x00]);
    // three units: 'y', 'o' and the first half of a pair whose second half is
    // there: count is 3, so the pair is cut and the text does not decode.
    match data_packet(&input[11..]) {
        ParseResult::Done(10, DataPacket::TOSERVER_CHAT_MESSAGE(m)) => assert_eq!(m.message, ""),
        other => panic!("{:?}", other),
    }
    let input = with_header(&[3, 0, 9, 1, 0, 0x32, 0, 4, 0, b'y', 0, b'o', 0xd8, 0x3d, 0xde, 0x00]);
    match packet(&input) {
        ParseResult::Done(n, p) => {
            assert_eq!(n, input.len());
            match p.data_packet {
                Some(DataPacket::TOSERVER_CHAT_MESSAGE(m)) => {
                    assert_eq!(m.id, 0x32);
                    assert_eq!(m.message, "yo\u{1F600}");
                }
                other => panic!("{:?}", other),
            }
        }
        other => panic!("{:?}", other),
    }
}

#[test]
fn data_packet_alternatives() {
    assert!(matches!(data_packet(&[]), ParseResult::Incomplete));
    assert!(matches!(data_packet(&[0]), ParseResult::Incomplete));
    assert!(matches!(data_packet(&[1, 2]), ParseResult::Error));
    assert!(matches!(data_packet(&[0, 5]), ParseResult::Error));
    assert!(matches!(data_packet(&[0, 2, 1]), ParseResult::Incomplete));
    assert!(matches!(data_packet(&[0, 0x32, 0, 2, 0]), ParseResult::Incomplete));
}

#[test]
fn packet_without_following_data_is_incomplete() {
    // Nothing after the base packet: the data packet cannot tell yet.
    assert!(matches!(packet(&with_header(&[0, 2])), ParseResult::Incomplete));
    assert!(packet(&with_header(&[0, 2])).to_full_result().is_none());
    // Bytes that cannot start a data packet: no data packet, and they stay unread.
    match packet(&with_header(&[0, 2, 7, 7])) {
        ParseResult::Done(9, p) => assert!(p.data_packet.is_none()),
        other => panic!("{:?}", other),
    }
    assert!(matches!(packet(&[0, 0, 0]), ParseResult::Incomplete));
    assert!(matches!(packet(&with_header(&[9])), ParseResult::Error));
}

#[test]
fn chat_packet_round_trips_through_serializer() {
    let input = with_header(&[3, 0xff, 0xdc, 1, 0, 0x32, 0, 2, 0, b'h', 0, b'i']);
    let p = packet(&input).to_full_result().unwrap();
    assert_eq!(serialize(&p).unwrap(), input);
}

#[test]
fn base_packet_type_conversions() {
    for b in 0u8..=255 {
        let t = BasePacketType::from(b);
        let back: u8 = t.into();
        assert_eq!(back, if b <= 3 { b } else { 0 });
    }
    assert_eq!(BasePacketType::from(3), BasePacketType::RELIABLE);
    assert_eq!(BasePacketType::from(200), BasePacketType::UNKNOWN);
    for t in [BasePacketType::CONTROL, BasePacketType::ORIGINAL, BasePacketType::SPLIT, BasePacketType::RELIABLE] {
        let b: u8 = t.into();
        assert_eq!(BasePacketType::from(b), t);
    }
    assert_eq!(ControlPacketType::from(0), ControlPacketType::CONTROLTYPE_ACK);
    assert_eq!(ControlPacketType::from(1), ControlPacketType::CONTROLTYPE_SET_PEER_ID);
    assert_eq!(ControlPacketType::from(2), ControlPacketType::CONTROLTYPE_PING);
    assert_eq!(ControlPacketType::from(3), ControlPacketType::CONTROLTYPE_DISCO);
    assert_eq!(ControlPacketType::from(4), ControlPacketType::CONTROLTYPE_UNKNOWN);
}

#[test]
fn base_packets_re_encode_to_their_bytes() {
    let cases: Vec<Vec<u8>> = vec![
        vec![0, 0, 0x12, 0x34],
        vec![0, 1, 0, 7],
        vec![0, 2],
        vec![0, 3],
        vec![1],
        vec![2, 0, 1, 0, 2, 0, 3],
        vec![3, 0xff, 0xdc, 3, 0, 1, 2, 0, 9, 0, 2, 0, 1],
    ];
    for case in cases {
        // A trailing byte that cannot start a data packet leaves the data packet out.
        let input = with_header(&[&case[..], &[0x7f]].concat());
        match packet(&input) {
            ParseResult::Done(n, p) => {
                assert_eq!(n, input.len() - 1);
                assert!(p.data_packet.is_none());
                assert_eq!(serialize(&p).unwrap(), input[..n].to_vec());
            }
            other => panic!("{:?} {:?}", case, other),
        }
    }
}

#[test]
fn init_packet_round_trips_through_serializer() {
    let mut bytes = vec![3, 0, 0x41, 1, 0, 2, 28, 0, 0, 0, 37, 0, 38, 0, 5];
    bytes.extend_from_slice("zoë!".as_bytes());
    let input = with_header(&bytes);
    let p = packet(&input).to_full_result().unwrap();
    assert_eq!(serialize(&p).unwrap(), input);
}
