use knot::packet::{BasePacket, BasePacketType, DataPacket, Packet, ToServerChatMessage, ToServerInit};
use knot::serializer::{encode_utf8, serialize, serialize_into, ErrorKind, Serializer};

#[test]
fn can_serialize() {
    let packet = Packet {
        protocol_id: 1,
        sender_peer_id: 2,
        channel: 3,
        base_packet: BasePacket::ReliablePacket {
            base_packet_id: BasePacketType::RELIABLE as u8,
            base_packet_type: BasePacketType::RELIABLE,
            seqnum: 3,
            inner_base_packet: None,
        },
        data_packet: None,
    };

    let result = serialize(&packet).unwrap();

    assert_eq!(vec![0x00, 0x00, 0x00, 0x01, 0x00, 0x02, 0x03, 0x03, 0x00, 0x03], result);
}

#[test]
fn serializes_nested_reliable_packet_with_chat() {
    let packet = Packet {
        protocol_id: 0x4f457403,
        sender_peer_id: 0x0102,
        channel: 0,
        base_packet: BasePacket::ReliablePacket {
            base_packet_type: BasePacketType::RELIABLE,
            base_packet_id: 3,
            seqnum: 0xffdc,
            inner_base_packet: Some(Box::new(BasePacket::OriginalPacket {
                base_packet_type: BasePacketType::ORIGINAL,
                base_packet_id: 1,
            })),
        },
        data_packet: Some(DataPacket::TOSERVER_CHAT_MESSAGE(ToServerChatMessage {
            id: 0x32,
            message: "hi".to_string(),
        })),
    };
    let result = serialize(&packet).unwrap();
    assert_eq!(
        result,
        vec![
            0x4f, 0x45, 0x74, 0x03, 0x01, 0x02, 0x00, 0x03, 0xff, 0xdc, 0x01, 0x00, 0x32, 0x00,
            0x02, 0x00, 0x68, 0x00, 0x69
        ]
    );
}

#[test]
fn serializes_control_and_split_packets() {
    let ack = Packet {
        protocol_id: 0,
        sender_peer_id: 0,
        channel: 1,
        base_packet: BasePacket::ControlPacket {
            base_packet_type: BasePacketType::CONTROL,
            controltype: knot::packet::ControlPacketType::CONTROLTYPE_ACK,
            base_packet_id: 0,
            controltype_id: 0,
            seqnum: Some(0x1234),
            peer_id_new: None,
        },
        data_packet: None,
    };
    assert_eq!(serialize(&ack).unwrap(), vec![0, 0, 0, 0, 0, 0, 1, 0, 0, 0x12, 0x34]);
    let split = Packet {
        protocol_id: 0,
        sender_peer_id: 0,
        channel: 1,
        base_packet: BasePacket::SplitPacket {
            base_packet_type: BasePacketType::SPLIT,
            base_packet_id: 2,
            seqnum: 7,
            chunk_count: 2,
            chunk_num: 1,
        },
        data_packet: None,
    };
    assert_eq!(serialize(&split).unwrap(), vec![0, 0, 0, 0, 0, 0, 1, 2, 0, 7, 0, 2, 0, 1]);
}

#[test]
fn serializes_init_name_as_bytestring() {
    let packet = Packet {
        protocol_id: 0,
        sender_peer_id: 0,
        channel: 0,
        base_packet: BasePacket::OriginalPacket {
            base_packet_type: BasePacketType::ORIGINAL,
            base_packet_id: 1,
        },
        data_packet: Some(DataPacket::TOSERVER_INIT(ToServerInit {
            id: 2,
            max_client_serialization_version: 28,
            supp_compr_modes: 0,
            min_net_proto_version: 37,
            max_net_proto_version: 38,
            player_name: "ab".to_string(),
        })),
    };
    assert_eq!(
        serialize(&packet).unwrap(),
        vec![0, 0, 0, 0, 0, 0, 0, 1, 0, 2, 28, 0, 0, 0, 37, 0, 38, 0, 2, 0x61, 0x62]
    );
}

#[test]
fn serialize_into_appends() {
    let packet = Packet {
        protocol_id: 9,
        sender_peer_id: 0,
        channel: 0,
        base_packet: BasePacket::OriginalPacket {
            base_packet_type: BasePacketType::ORIGINAL,
            base_packet_id: 1,
        },
        data_packet: None,
    };
    let mut out = vec![0xaa];
    serialize_into(&mut out, &packet).unwrap();
    assert_eq!(out, vec![0xaa, 0, 0, 0, 9, 0, 0, 0, 1]);
}

#[test]
fn serializes_integers_big_endian() {
    let mut s = Serializer::new(Vec::new());
    s.serialize_bool(true).unwrap();
    s.serialize_bool(false).unwrap();
    s.serialize_u8(0xfe).unwrap();
    s.serialize_u16(0x0102).unwrap();
    s.serialize_u32(0x03040506).unwrap();
    s.serialize_u64(0x0708090a0b0c0d0e).unwrap();
    s.serialize_i8(-1).unwrap();
    s.serialize_i16(-2).unwrap();
    s.serialize_i32(-3).unwrap();
    s.serialize_i64(-4).unwrap();
    s.serialize_unit().unwrap();
    s.serialize_none().unwrap();
    s.serialize_unit_variant("E", 5, "V").unwrap();
    assert_eq!(
        s.into_inner(),
        vec![
            1, 0, 0xfe, 1, 2, 3, 4, 5, 6, 7, 8, 9, 10, 11, 12, 13, 14, 0xff, 0xff, 0xfe, 0xff,
            0xff, 0xff, 0xfd, 0xff, 0xff, 0xff, 0xff, 0xff, 0xff, 0xff, 0xfc
        ]
    );
}

#[test]
fn serializes_strings_with_utf8_length_and_utf16_units() {
    let mut s = Serializer::new(Vec::new());
    s.serialize_str("ok").unwrap();
    assert_eq!(s.into_inner(), vec![0, 2, 0, b'o', 0, b'k']);

    // 'é' is two bytes in UTF-8 but one UTF-16 unit; the count is the UTF-8 length.
    let mut s = Serializer::new(Vec::new());
    s.serialize_str("é").unwrap();
    assert_eq!(s.into_inner(), vec![0, 2, 0, 0xe9]);

    // A character outside the basic plane takes a surrogate pair.
    let mut s = Serializer::new(Vec::new());
    s.serialize_str("\u{1F600}").unwrap();
    assert_eq!(s.into_inner(), vec![0, 4, 0xd8, 0x3d, 0xde, 0x00]);

    let mut s = Serializer::new(Vec::new());
    s.serialize_str("").unwrap();
    assert_eq!(s.into_inner(), vec![0, 0]);
}

#[test]
fn string_length_is_cut_to_16_bits() {
    let long = "x".repeat(65537);
    let mut s = Serializer::new(Vec::new());
    s.serialize_str(&long).unwrap();
    let out = s.into_inner();
    assert_eq!(&out[..2], &[0, 1]);
    assert_eq!(out.len(), 2 + 2 * 65537);
}

#[test]
fn serializes_bytes_and_chars() {
    let mut s = Serializer::new(Vec::new());
    s.serialize_bytes(&[9, 8, 7]).unwrap();
    s.serialize_char('A').unwrap();
    s.serialize_char('ß').unwrap();
    s.serialize_char('€').unwrap();
    s.serialize_char('\u{1F600}').unwrap();
    assert_eq!(
        s.into_inner(),
        vec![0, 3, 9, 8, 7, 0x41, 0xc3, 0x9f, 0xe2, 0x82, 0xac, 0xf0, 0x9f, 0x98, 0x80]
    );
}

#[test]
fn encode_utf8_agrees_with_std() {
    for c in ['\0', 'a', '\u{7f}', '\u{80}', 'é', '\u{7ff}', '\u{800}', '€', '\u{ffff}', '\u{10000}', '\u{10ffff}'] {
        let mut expected = [0u8; 4];
        let expected = c.encode_utf8(&mut expected).as_bytes().to_vec();
        assert_eq!(encode_utf8(c).as_slice(), &expected[..], "{:?}", c);
    }
}

#[test]
fn custom_error_message() {
    let e = ErrorKind::Custom("bad value".to_string());
    assert_eq!(e.to_string(), "bad value");
}

#[test]
fn io_error_message() {
    let e = ErrorKind::Io(std::io::Error::new(std::io::ErrorKind::Other, "disk on fire"));
    assert_eq!(e.to_string(), "io error: disk on fire");
}

#[test]
fn serializes_init_fields_in_order() {
    let d = DataPacket::TOSERVER_INIT(ToServerInit {
        id: 0x02,
        max_client_serialization_version: 1,
        supp_compr_modes: 2,
        min_net_proto_version: 3,
        max_net_proto_version: 4,
        player_name: "é".to_string(),
    });
    let mut s = Serializer::new(Vec::new());
    d.serialize(&mut s).unwrap();
    assert_eq!(s.into_inner(), vec![0x00, 0x02, 0x01, 0x00, 0x02, 0x00, 0x03, 0x00, 0x04, 0x00, 0x02, 0xc3, 0xa9]);
}
