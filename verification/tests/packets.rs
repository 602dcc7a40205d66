//! Packets, their checksums, and the messages in them.
use dronekit::message::{same_value, Command, Telemetry};
use dronekit::packet::MavPacket;
use dronekit::text::{encode_param_id, parse_mavlink_string};
use mavlink::dialects::common::{
    MavAutopilot, MavDataStream, MavMessage, MavModeFlag, MavParamType, MavState, MavType,
    GLOBAL_POSITION_INT_DATA, HEARTBEAT_DATA, PARAM_REQUEST_LIST_DATA, PARAM_SET_DATA,
    PARAM_VALUE_DATA, REQUEST_DATA_STREAM_DATA,
};
use mavlink::error::ParserError;
use mavlink::{MavHeader, MavlinkVersion, Message};

fn crate_payload(message: &MavMessage) -> Vec<u8> {
    let mut bytes = vec![0u8; 255];
    let n = message.ser(MavlinkVersion::V1, &mut bytes);
    bytes.truncate(n);
    bytes
}

fn crate_frame(sequence: u8, message: &MavMessage) -> Vec<u8> {
    let mut bytes: Vec<u8> = Vec::new();
    let header = MavHeader { system_id: 255, component_id: 0, sequence };
    mavlink::write_v1_msg(&mut bytes, header, message).unwrap();
    bytes
}

fn ground_heartbeat() -> MavMessage {
    MavMessage::HEARTBEAT(HEARTBEAT_DATA {
        custom_mode: 0,
        mavtype: MavType::MAV_TYPE_GCS,
        autopilot: MavAutopilot::MAV_AUTOPILOT_INVALID,
        base_mode: MavModeFlag::empty(),
        system_status: MavState::MAV_STATE_UNINIT,
        mavlink_version: 3,
    })
}

fn packet_of(message_id: u8, data: Vec<u8>) -> MavPacket {
    MavPacket { seq: 7, system_id: 1, component_id: 2, message_id, data, checksum: 0 }
}

#[test]
fn frame_is_taken_apart() {
    let frame: [u8; 11] = [0xfe, 3, 10, 20, 30, 40, 1, 2, 3, 0x34, 0x12];
    let p = MavPacket::new(&frame);
    assert_eq!(p.seq, 10);
    assert_eq!(p.system_id, 20);
    assert_eq!(p.component_id, 30);
    assert_eq!(p.message_id, 40);
    assert_eq!(p.data, vec![1u8, 2, 3]);
    assert_eq!(p.checksum, 0x1234);
}

#[test]
fn shortest_frame_has_no_payload() {
    let p = MavPacket::new(&[0xfe, 0, 1, 2, 3, 4, 0xff, 0x00]);
    assert!(p.data.is_empty());
    assert_eq!(p.checksum, 0x00ff);
}

#[test]
fn packet_is_encoded_byte_by_byte() {
    let mut p = packet_of(40, vec![9, 8]);
    p.checksum = 0xabcd;
    assert_eq!(p.encode_nocrc(), vec![0xfe, 2, 7, 1, 2, 40, 9, 8]);
    assert_eq!(p.encode(), vec![0xfe, 2, 7, 1, 2, 40, 9, 8, 0xcd, 0xab]);
    assert_eq!(p.checked_bytes(77), vec![2, 7, 1, 2, 40, 9, 8, 77]);
}

#[test]
fn new_inverts_encode() {
    let mut p = packet_of(22, vec![0xfe, 0xfe, 0]);
    p.update_crc();
    let q = MavPacket::new(&p.encode());
    assert_eq!(q.encode(), p.encode());
    assert_eq!(q.checksum, p.checksum);
    assert_eq!(q.data, p.data);
}

#[test]
fn checksum_is_that_of_the_crc16_crate() {
    let mut p = packet_of(0, vec![1, 2, 3]);
    let bytes = p.checked_bytes(MavMessage::extra_crc(0));
    let mut state = crc16::State::<crc16::MCRF4XX>::new();
    state.update(&bytes);
    assert_eq!(p.calc_crc(), state.get());
    assert!(!p.check_crc());
    p.update_crc();
    assert_eq!(p.checksum, state.get());
    assert!(p.check_crc());
    p.data[0] = 0;
    assert!(!p.check_crc());
}

/// The checksum, bit by bit.
fn mcrf4xx(bytes: &[u8]) -> u16 {
    let mut c: u16 = 0xffff;
    for b in bytes {
        c ^= *b as u16;
        for _ in 0..8 {
            c = if c & 1 == 1 { (c >> 1) ^ 0x8408 } else { c >> 1 };
        }
    }
    c
}

#[test]
fn checksum_is_the_one_defined_bit_by_bit() {
    assert_eq!(mcrf4xx(b"123456789"), 0x6f91);
    assert_eq!(crc16::State::<crc16::MCRF4XX>::calculate(b"123456789"), 0x6f91);
    assert_eq!(crc16::State::<crc16::MCRF4XX>::calculate(b""), mcrf4xx(b""));
    for a in 0..=255u8 {
        assert_eq!(crc16::State::<crc16::MCRF4XX>::calculate(&[a]), mcrf4xx(&[a]));
        for b in 0..=255u8 {
            let p = packet_of(a, vec![b, 1, b]);
            assert_eq!(p.calc_crc(), mcrf4xx(&p.checked_bytes(MavMessage::extra_crc(a as u32))));
        }
    }
}

#[test]
fn changed_byte_changes_the_checksum() {
    let mut p = packet_of(22, vec![1, 2, 3, 4]);
    p.update_crc();
    for i in 0..4 {
        let was = p.data[i];
        for b in 0..=255u8 {
            p.data[i] = b;
            assert_eq!(p.check_crc(), b == was);
        }
        p.data[i] = was;
    }
}

#[test]
fn checksum_depends_on_the_message_id() {
    let a = packet_of(0, vec![]);
    let mut b = packet_of(22, vec![]);
    b.message_id = 22;
    assert_ne!(a.calc_crc(), b.calc_crc());
}

#[test]
fn known_frame_is_intact() {
    let frame: Vec<u8> = vec![
        0xfe, 0x09, 0xef, 0x01, 0x02, 0x00, 0x05, 0x00, 0x00, 0x00, 0x02, 0x03, 0x59, 0x03, 0x03,
        0x1f, 0x50,
    ];
    let p = MavPacket::new(&frame);
    assert!(p.check_crc());
    assert_eq!(p.parse(), Some(Telemetry::Heartbeat));
}

#[test]
fn heartbeat_is_serialized_as_the_mavlink_crate_does() {
    let command = Command::Heartbeat {
        custom_mode: 0,
        mavtype: 6,
        autopilot: 8,
        base_mode: 0,
        system_status: 0,
        mavlink_version: 3,
    };
    assert_eq!(command.message_id() as u32, ground_heartbeat().message_id());
    assert_eq!(command.serialize(), crate_payload(&ground_heartbeat()));
    assert_eq!(command.serialize(), vec![0, 0, 0, 0, 6, 8, 0, 0, 3]);
}

#[test]
fn list_request_is_serialized_as_the_mavlink_crate_does() {
    let command = Command::ParamRequestList { target_system: 5, target_component: 6 };
    let message = MavMessage::PARAM_REQUEST_LIST(PARAM_REQUEST_LIST_DATA {
        target_system: 5,
        target_component: 6,
    });
    assert_eq!(command.message_id() as u32, message.message_id());
    assert_eq!(command.serialize(), crate_payload(&message));
}

#[test]
fn stream_request_is_serialized_as_the_mavlink_crate_does() {
    let command = Command::RequestDataStream {
        target_system: 1,
        target_component: 2,
        req_stream_id: 0,
        req_message_rate: 0x0164,
        start_stop: 1,
    };
    let message = MavMessage::REQUEST_DATA_STREAM(REQUEST_DATA_STREAM_DATA {
        req_message_rate: 0x0164,
        target_system: 1,
        target_component: 2,
        req_stream_id: MavDataStream::MAV_DATA_STREAM_ALL,
        start_stop: 1,
    });
    assert_eq!(command.message_id() as u32, message.message_id());
    assert_eq!(command.serialize(), crate_payload(&message));
    assert_eq!(command.serialize(), vec![0x64, 0x01, 1, 2, 0, 1]);
}

#[test]
fn parameter_setting_is_serialized_as_the_mavlink_crate_does() {
    let command = Command::ParamSet {
        param_value: 1.5f32.to_bits(),
        target_system: 3,
        target_component: 4,
        param_id: encode_param_id("THR_MIN"),
        param_type: 9,
    };
    let message = MavMessage::PARAM_SET(PARAM_SET_DATA {
        param_value: 1.5,
        target_system: 3,
        target_component: 4,
        param_id: "THR_MIN".into(),
        param_type: MavParamType::MAV_PARAM_TYPE_REAL32,
    });
    assert_eq!(command.message_id() as u32, message.message_id());
    assert_eq!(command.serialize(), crate_payload(&message));
}

#[test]
fn whole_frame_is_that_of_the_mavlink_crate() {
    let command = Command::Heartbeat {
        custom_mode: 0,
        mavtype: 6,
        autopilot: 8,
        base_mode: 0,
        system_status: 0,
        mavlink_version: 3,
    };
    let mut p = MavPacket {
        seq: 200,
        system_id: 255,
        component_id: 0,
        message_id: command.message_id(),
        data: command.serialize(),
        checksum: 0,
    };
    p.update_crc();
    assert_eq!(p.encode(), crate_frame(200, &ground_heartbeat()));
}

#[test]
fn parameter_value_is_parsed() {
    let message = MavMessage::PARAM_VALUE(PARAM_VALUE_DATA {
        param_value: -2.25,
        param_count: 400,
        param_index: 17,
        param_id: "RC1_MIN".into(),
        param_type: MavParamType::MAV_PARAM_TYPE_REAL32,
    });
    let p = MavPacket::new(&crate_frame(0, &message));
    assert!(p.check_crc());
    match p.parse() {
        Some(Telemetry::ParamValue { value, count, index, id }) => {
            assert_eq!(f32::from_bits(value), -2.25);
            assert_eq!(count, 400);
            assert_eq!(index, 17);
            assert_eq!(id.len(), 16);
            assert_eq!(parse_mavlink_string(&id), "RC1_MIN");
        }
        other => panic!("{:?}", other),
    }
}

#[test]
fn position_is_parsed() {
    let message = MavMessage::GLOBAL_POSITION_INT(GLOBAL_POSITION_INT_DATA {
        time_boot_ms: 1,
        lat: -10,
        lon: 20,
        alt: 30,
        relative_alt: 4,
        vx: 5,
        vy: 6,
        vz: 7,
        hdg: 8,
    });
    let p = MavPacket::new(&crate_frame(0, &message));
    assert_eq!(p.parse(), Some(Telemetry::GlobalPosition { lat: -10, lon: 20, alt: 30 }));
}

#[test]
fn status_text_is_parsed() {
    let mut data = vec![4u8];
    data.extend_from_slice(b"PreArm: check");
    data.resize(51, 0);
    match packet_of(253, data).parse() {
        Some(Telemetry::StatusText { severity, text }) => {
            assert_eq!(severity, 4);
            assert_eq!(text.len(), 50);
            assert_eq!(parse_mavlink_string(&text), "PreArm: check");
        }
        other => panic!("{:?}", other),
    }
}

#[test]
fn other_messages_are_told_apart_from_unknown_ones() {
    // An attitude, and an id that no message of the dialect has.
    assert_eq!(packet_of(30, vec![0; 28]).parse(), Some(Telemetry::Other));
    assert_eq!(packet_of(3, vec![0; 28]).parse(), None);
}

#[test]
fn message_not_acted_on_may_hold_values_outside_of_its_enumerations() {
    // A command of no known number.
    let data = vec![255u8; 33];
    assert!(MavMessage::parse(MavlinkVersion::V1, 76, &data).is_err());
    assert_eq!(packet_of(76, data).parse(), Some(Telemetry::Other));
}

#[test]
fn text_ends_at_the_first_nul() {
    assert_eq!(parse_mavlink_string(b"abc\0def"), "abc");
    assert_eq!(parse_mavlink_string(b"abc"), "abc");
    assert_eq!(parse_mavlink_string(b"\0abc"), "");
    assert_eq!(parse_mavlink_string(b""), "");
    assert_eq!(parse_mavlink_string(&[0x41, 0xe9, 0xff]), "A\u{e9}\u{ff}");
}

#[test]
fn parameter_names_are_padded_and_cut_off() {
    assert_eq!(&encode_param_id("AB"), b"AB\0\0\0\0\0\0\0\0\0\0\0\0\0\0");
    assert_eq!(&encode_param_id("ABCDEFGHIJKLMNOPQ"), b"ABCDEFGHIJKLMNOP");
    assert_eq!(&encode_param_id(""), &[0u8; 16]);
    // Of a character beyond the eight-bit range the low byte is sent.
    assert_eq!(encode_param_id("\u{141}")[0], 0x41);
    assert_eq!(encode_param_id("\u{1f600}")[0], 0x00);
}

#[test]
fn parameter_name_is_read_back() {
    for name in ["X", "SYSID_THISMAV", "ABCDEFGHIJKLMNOP", "caf\u{e9}"] {
        assert_eq!(parse_mavlink_string(&encode_param_id(name)), name);
    }
    let long = "ABCDEFGHIJKLMNOPQ";
    assert_ne!(parse_mavlink_string(&encode_param_id(long)), long);
}

#[test]
fn values_are_compared_as_singles() {
    let values = [
        0.0f32, -0.0, 1.0, -1.0, 1.5, f32::INFINITY, f32::NEG_INFINITY, f32::NAN, -f32::NAN,
        f32::MIN_POSITIVE, f32::MAX, 1e-45,
    ];
    for a in values {
        for b in values {
            assert_eq!(same_value(a.to_bits(), b.to_bits()), a == b, "{} {}", a, b);
        }
    }
}

#[test]
fn places_in_the_list_are_told() {
    let at = |count: u16, index: u16| Telemetry::ParamValue { value: 0, count, index, id: vec![] };
    assert!(at(3, 2).listed() && at(3, 2).in_range());
    assert!(!at(3, 3).listed() && !at(3, 3).in_range());
    assert!(!at(3, 65535).listed() && at(3, 65535).in_range());
    assert!(!at(0, 0).in_range());
    assert!(Telemetry::Heartbeat.listed() && Telemetry::Heartbeat.in_range());
}

#[test]
fn heartbeat_may_come_from_any_system() {
    for at in 4..9 {
        for b in 0..=255u8 {
            let mut data = vec![9u8, 9, 9, 9, 6, 8, 255, 0, 3];
            data[at] = b;
            assert_eq!(packet_of(0, data).parse(), Some(Telemetry::Heartbeat), "{} {}", at, b);
        }
    }
}

#[test]
fn parameter_may_be_of_any_type() {
    for b in 0..=255u8 {
        let mut data = vec![3u8; 25];
        data[24] = b;
        assert_eq!(packet_of(22, data).parse(), Some(Telemetry::ParamValue {
            value: 0x0303_0303,
            count: 0x0303,
            index: 0x0303,
            id: vec![3; 16],
        }));
    }
}

#[test]
fn text_may_be_of_any_severity() {
    for b in 0..=255u8 {
        let mut data = vec![65u8; 51];
        data[0] = b;
        assert_eq!(
            packet_of(253, data).parse(),
            Some(Telemetry::StatusText { severity: b, text: vec![65; 50] })
        );
    }
}

#[test]
fn payload_is_cut_off_or_filled_up() {
    assert_eq!(packet_of(22, vec![1; 10]).parse(), Some(Telemetry::ParamValue {
        value: 0x0101_0101,
        count: 0x0101,
        index: 0x0101,
        id: vec![1, 1, 0, 0, 0, 0, 0, 0, 0, 0, 0, 0, 0, 0, 0, 0],
    }));
    let mut long = vec![2u8; 40];
    long[24] = 9;
    assert_eq!(packet_of(22, long).parse(), Some(Telemetry::ParamValue {
        value: 0x0202_0202,
        count: 0x0202,
        index: 0x0202,
        id: vec![2; 16],
    }));
    assert_eq!(
        packet_of(33, vec![0, 0, 0, 0, 1]).parse(),
        Some(Telemetry::GlobalPosition { lat: 1, lon: 0, alt: 0 })
    );
    assert_eq!(
        packet_of(33, vec![]).parse(),
        Some(Telemetry::GlobalPosition { lat: 0, lon: 0, alt: 0 })
    );
    assert_eq!(
        packet_of(33, vec![255; 60]).parse(),
        Some(Telemetry::GlobalPosition { lat: -1, lon: -1, alt: -1 })
    );
    assert_eq!(
        packet_of(253, vec![3, 66]).parse(),
        Some(Telemetry::StatusText {
            severity: 3,
            text: std::iter::once(66).chain(std::iter::repeat(0)).take(50).collect(),
        })
    );
    assert_eq!(packet_of(0, vec![]).parse(), Some(Telemetry::Heartbeat));
    assert_eq!(packet_of(0, vec![0; 200]).parse(), Some(Telemetry::Heartbeat));
}

#[test]
fn parameter_value_is_read_field_by_field() {
    let mut data: Vec<u8> = vec![0x78, 0x56, 0x34, 0x12, 0x02, 0x01, 0x04, 0x03];
    data.extend(b"NAME............");
    data.push(1);
    assert_eq!(packet_of(22, data).parse(), Some(Telemetry::ParamValue {
        value: 0x1234_5678,
        count: 0x0102,
        index: 0x0304,
        id: b"NAME............".to_vec(),
    }));
}

#[test]
fn position_is_read_field_by_field() {
    let mut data = vec![0u8; 28];
    data[4..8].copy_from_slice(&(-123456789i32).to_le_bytes());
    data[8..12].copy_from_slice(&i32::MAX.to_le_bytes());
    data[12..16].copy_from_slice(&i32::MIN.to_le_bytes());
    assert_eq!(packet_of(33, data).parse(), Some(Telemetry::GlobalPosition {
        lat: -123456789,
        lon: i32::MAX,
        alt: i32::MIN,
    }));
}

#[test]
fn only_their_ids_give_the_messages_acted_on() {
    for id in 0..=255u8 {
        for fill in [0u8, 1, 255] {
            let data = vec![fill; 255];
            let unknown = matches!(
                MavMessage::parse(MavlinkVersion::V1, id as u32, &data),
                Err(ParserError::UnknownMessage { .. })
            );
            match packet_of(id, data).parse() {
                None => assert!(unknown),
                Some(Telemetry::Heartbeat) => assert_eq!(id, 0),
                Some(Telemetry::ParamValue { .. }) => assert_eq!(id, 22),
                Some(Telemetry::GlobalPosition { .. }) => assert_eq!(id, 33),
                Some(Telemetry::StatusText { .. }) => assert_eq!(id, 253),
                Some(Telemetry::Other) => assert!(!unknown && ![0, 22, 33, 253].contains(&id)),
            }
        }
    }
}

#[test]
fn frame_is_given_back_if_its_length_byte_is_right() {
    let right: Vec<u8> = vec![0xfe, 1, 2, 3, 4, 5, 6, 7, 8];
    assert_eq!(MavPacket::new(&right).encode(), right);
    let mut wrong = right.clone();
    wrong[0] = 0xfd;
    wrong[1] = 9;
    assert_eq!(MavPacket::new(&wrong).encode(), right);
}
