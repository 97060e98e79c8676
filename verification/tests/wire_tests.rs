use robot_fabric::DiagnosticKeyValue;
use robot_fabric::DiagnosticMsg;
use robot_fabric::DiagnosticStatus;
use robot_fabric::FloatBits32;
use robot_fabric::FloatBits64;
use robot_fabric::MotionRequestMode;
use robot_fabric::MotionTargetRequest;
use robot_fabric::MotionVelocityRequest;
use robot_fabric::OdometryDelta;
use robot_fabric::PacketData;
use robot_fabric::PacketDecodeErr;
use robot_fabric::PacketFormat;
use robot_fabric::PositionEstimate;
use robot_fabric::SubscriptionRequest;
use robot_fabric::decode_packet;
use robot_fabric::encode_envelope;
use robot_fabric::encode_packet;

fn roundtrip(message: PacketFormat) {
    let mut buffer = vec![0u8; 600];
    let size = encode_packet(&message, &mut buffer).unwrap();
    let decoded = decode_packet(&buffer[..size]).unwrap();
    assert_eq!(decoded, message);
}

fn envelope(data: PacketData) -> PacketFormat {
    PacketFormat { to: Some(7), from: Some(1), data, time: 123456789, id: 42 }
}

fn f32b(v: f32) -> FloatBits32 {
    FloatBits32 { bits: v.to_bits() }
}

fn f64b(v: f64) -> FloatBits64 {
    FloatBits64 { bits: v.to_bits() }
}

#[test]
fn test_roundtrip_every_variant() {
    roundtrip(envelope(PacketData::ClockRequest(robot_fabric::ClockRequest {
        request_time: u64::MAX,
    })));
    roundtrip(envelope(PacketData::ClockResponse(robot_fabric::ClockResponse {
        request_time: 0,
        received_time: 0x1_0000,
    })));
    roundtrip(envelope(PacketData::DiagnosticMsg(DiagnosticMsg {
        level: DiagnosticStatus::Stale,
        name: "serial_stats".to_string(),
        message: "rising error counts".to_string(),
        values: vec![DiagnosticKeyValue {
            key: "decode_errors".to_string(),
            value: "17".to_string(),
        }],
    })));
    roundtrip(envelope(PacketData::OdometryDelta(OdometryDelta {
        start_time: 100,
        end_time: 200,
        delta_position: (f32b(1.5), f32b(-0.25)),
        delta_orientation: f32b(0.125),
    })));
    roundtrip(envelope(PacketData::SubscriptionRequest(SubscriptionRequest {
        topics: vec!["DiagnosticMsg".to_string(), "all".to_string()],
    })));
    roundtrip(envelope(PacketData::PositionEstimate(PositionEstimate {
        timestamp: 555,
        position: (f32b(3.0), f32b(4.0)),
        orientation: f32b(1.5707964),
    })));
    roundtrip(envelope(PacketData::MotionVelocityRequest(MotionVelocityRequest {
        linear_velocity: f32b(1.0),
        angular_velocity: f32b(0.0),
    })));
    roundtrip(envelope(PacketData::MotionTargetRequest(MotionTargetRequest {
        linear: (f64b(2.5), f64b(-2.5)),
        angular: f64b(0.75),
        motion_mode: MotionRequestMode::Position,
    })));
}

// The embedded bounds at their largest: sixteen-character name,
// thirty-two-character message, eight full-length entries. Strings over
// twenty-three characters exercise the two-byte text header.
#[test]
fn test_roundtrip_largest_diagnostic() {
    let values: Vec<DiagnosticKeyValue> = (0..8)
        .map(|i| DiagnosticKeyValue {
            key: format!("key_number_{:05}", i),
            value: format!("value_number_{:03}", i),
        })
        .collect();
    for kv in values.iter() {
        assert_eq!(kv.key.len(), 16);
        assert_eq!(kv.value.len(), 16);
    }
    let message = envelope(PacketData::DiagnosticMsg(DiagnosticMsg {
        level: DiagnosticStatus::Warn,
        name: "abcdefghijklmnop".to_string(),
        message: "abcdefghijklmnopqrstuvwxyz012345".to_string(),
        values,
    }));
    roundtrip(message);
}

#[test]
fn test_roundtrip_largest_subscription() {
    let topics: Vec<String> = (0..8)
        .map(|i| format!("topic_number_{:019}", i))
        .collect();
    for topic in topics.iter() {
        assert_eq!(topic.len(), 32);
    }
    roundtrip(envelope(PacketData::SubscriptionRequest(SubscriptionRequest { topics })));
}

#[test]
fn test_roundtrip_empty_strings() {
    roundtrip(envelope(PacketData::DiagnosticMsg(DiagnosticMsg {
        level: DiagnosticStatus::Okay,
        name: String::new(),
        message: String::new(),
        values: Vec::new(),
    })));
    roundtrip(envelope(PacketData::SubscriptionRequest(SubscriptionRequest {
        topics: Vec::new(),
    })));
}

// The exact bytes of one envelope, computed by hand from the format:
// a five-entry map with text keys in declaration order, null for absent
// addresses, a one-entry map keyed by the variant tag, and
// shortest-form integers.
#[test]
fn test_envelope_golden_bytes() {
    let message = PacketFormat {
        to: None,
        from: None,
        data: PacketData::ClockRequest(robot_fabric::ClockRequest { request_time: 1 }),
        time: 2,
        id: 3,
    };
    let mut expected: Vec<u8> = Vec::new();
    expected.push(0xA5);
    expected.push(0x62);
    expected.extend_from_slice(b"to");
    expected.push(0xF6);
    expected.push(0x64);
    expected.extend_from_slice(b"from");
    expected.push(0xF6);
    expected.push(0x64);
    expected.extend_from_slice(b"data");
    expected.push(0xA1);
    expected.push(0x6C);
    expected.extend_from_slice(b"ClockRequest");
    expected.push(0xA1);
    expected.push(0x6C);
    expected.extend_from_slice(b"request_time");
    expected.push(0x01);
    expected.push(0x64);
    expected.extend_from_slice(b"time");
    expected.push(0x02);
    expected.push(0x62);
    expected.extend_from_slice(b"id");
    expected.push(0x03);

    assert_eq!(encode_envelope(&message), expected);
}

// The packet layer really is COBS over the CBOR bytes and their
// little-endian CRC16-ARC: recompose it from the outside crates and
// compare byte for byte.
#[test]
fn test_packet_matches_cobs_and_crc_composition() {
    let message = envelope(PacketData::ClockResponse(robot_fabric::ClockResponse {
        request_time: 11,
        received_time: 22,
    }));

    let cbor = encode_envelope(&message);
    let crc = crc16::State::<crc16::ARC>::calculate(&cbor);
    let mut payload = cbor;
    payload.extend_from_slice(&crc.to_le_bytes());
    let expected = cobs::encode_vec(&payload);

    let mut buffer = vec![0u8; 600];
    let size = encode_packet(&message, &mut buffer).unwrap();
    assert_eq!(&buffer[..size], expected.as_slice());
}

// A frame whose checksummed payload is not a catalog envelope draws
// `DeserializationError`; one too short for any checksum draws
// `TooShort`.
#[test]
fn test_decode_error_variants() {
    let body = [0xFFu8];
    let crc = crc16::State::<crc16::ARC>::calculate(&body);
    let mut payload = body.to_vec();
    payload.extend_from_slice(&crc.to_le_bytes());
    let encoded = cobs::encode_vec(&payload);
    assert!(matches!(
        decode_packet(&encoded),
        Err(PacketDecodeErr::DeserializationError)
    ));

    let empty = cobs::encode_vec(&[]);
    assert!(matches!(decode_packet(&empty), Err(PacketDecodeErr::TooShort)));
}

// The strict decoder rejects a non-shortest integer encoding even when
// the checksum is right.
#[test]
fn test_decode_rejects_non_canonical_integer() {
    let message = PacketFormat {
        to: None,
        from: None,
        data: PacketData::ClockRequest(robot_fabric::ClockRequest { request_time: 1 }),
        time: 2,
        id: 3,
    };
    let mut cbor = encode_envelope(&message);
    // Rewrite the final `id: 3` as the two-byte form 0x18 0x03.
    assert_eq!(cbor.pop(), Some(0x03));
    cbor.push(0x18);
    cbor.push(0x03);
    let crc = crc16::State::<crc16::ARC>::calculate(&cbor);
    let mut payload = cbor;
    payload.extend_from_slice(&crc.to_le_bytes());
    let encoded = cobs::encode_vec(&payload);
    assert!(matches!(
        decode_packet(&encoded),
        Err(PacketDecodeErr::DeserializationError)
    ));
}
