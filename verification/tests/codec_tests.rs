use robot_fabric::ClockRequest;
use robot_fabric::ClockResponse;
use robot_fabric::PacketData;
use robot_fabric::PacketDecodeErr;
use robot_fabric::PacketEncodeErr;
use robot_fabric::PacketFinder;
use robot_fabric::PacketFormat;
use robot_fabric::decode_packet;
use robot_fabric::encode_frame;
use robot_fabric::encode_packet;

fn clock_response_packet(request_time: u64, received_time: u64, time: u64) -> PacketFormat {
    PacketFormat {
        to: None,
        from: None,
        data: PacketData::ClockResponse(ClockResponse { request_time, received_time }),
        time,
        id: 0,
    }
}

fn clock_request_packet(request_time: u64, time: u64, id: u32) -> PacketFormat {
    PacketFormat {
        to: None,
        from: None,
        data: PacketData::ClockRequest(ClockRequest { request_time }),
        time,
        id,
    }
}

#[test]
fn test_encode_decode_success() {
    let message = clock_response_packet(12345, 678, 100);

    let mut encode_buffer = vec![0xEEu8; 100];
    let encoded_size = encode_packet(&message, &mut encode_buffer).unwrap();

    assert!(encoded_size > 0);
    assert!(encoded_size <= 100);
    // The buffer keeps its length and the bytes past the packet.
    assert_eq!(encode_buffer.len(), 100);
    assert!(encode_buffer[encoded_size..].iter().all(|b| *b == 0xEE));

    let decoded_message = decode_packet(&encode_buffer[..encoded_size]).unwrap();
    assert_eq!(message, decoded_message);
}

#[test]
fn test_encode_decode_simple_message() {
    let message = clock_request_packet(42, 0, 0);

    let mut encode_buffer = vec![0u8; 100];
    let encoded_size = encode_packet(&message, &mut encode_buffer).unwrap();

    let decoded_message = decode_packet(&encode_buffer[..encoded_size]).unwrap();
    assert_eq!(message, decoded_message);
}

#[test]
fn test_encode_buffer_too_small() {
    let message = clock_response_packet(12345, 678, 0);

    let mut encode_buffer = vec![0u8; 5];
    let result = encode_packet(&message, &mut encode_buffer);

    assert!(matches!(result, Err(PacketEncodeErr::BufferTooSmall)));
}

#[test]
fn test_decode_corrupted_cobs_data() {
    let corrupted_data = [0u8, 1u8, 2u8, 0u8, 4u8];
    let result = decode_packet(&corrupted_data);

    assert!(result.is_err());
}

#[test]
fn test_decode_too_short_data() {
    let short_data = [0u8];
    let result = decode_packet(&short_data);

    assert!(result.is_err());
}

#[test]
fn test_decode_crc_mismatch() {
    let message = clock_request_packet(42, 0, 0);

    let mut encode_buffer = vec![0u8; 100];
    let encoded_size = encode_packet(&message, &mut encode_buffer).unwrap();

    // Every single-bit corruption must fail to decode, and corruption of
    // payload bytes is caught by the checksum.
    let mut found_crc_mismatch = false;
    for i in 0..encoded_size {
        for bit in 0..8u8 {
            let mut mutated = encode_buffer[..encoded_size].to_vec();
            mutated[i] ^= 1u8 << bit;
            match decode_packet(&mutated) {
                Err(PacketDecodeErr::CrcMismatch) => {
                    found_crc_mismatch = true;
                },
                Err(_) => {},
                Ok(decoded) => assert_ne!(decoded, message),
            }
        }
    }
    assert!(found_crc_mismatch);
}

// Single-byte corruption anywhere in a frame must never decode as the
// original message, and with overwhelming probability must not decode at
// all: the checksum or the strict parser catches it.
#[test]
fn test_crc_detects_single_byte_mutations() {
    let message = clock_response_packet(0x123456789A, 0xBADC0FFEE, 777);
    let mut encode_buffer = vec![0u8; 200];
    let encoded_size = encode_packet(&message, &mut encode_buffer).unwrap();
    let encoded = &encode_buffer[..encoded_size];

    for i in 0..encoded_size {
        for bit in 0..8 {
            let mut mutated = encoded.to_vec();
            mutated[i] ^= 1u8 << bit;
            match decode_packet(&mutated) {
                Ok(decoded) => assert_ne!(decoded, message),
                Err(_) => {},
            }
        }
    }
}

// The delimited frame holds exactly two zero bytes: its first and its
// last.
#[test]
fn test_frame_has_exactly_two_zeros() {
    let message = clock_response_packet(1, 2, 3);
    let frame = encode_frame(&message).unwrap();

    assert!(frame.len() >= 2);
    assert_eq!(frame[0], 0);
    assert_eq!(frame[frame.len() - 1], 0);
    let zero_count = frame.iter().filter(|b| **b == 0).count();
    assert_eq!(zero_count, 2);
}

// A rejected envelope: a diagnostic name above the embedded bound cannot
// be serialised.
#[test]
fn test_encode_rejects_overlong_name() {
    let message = PacketFormat {
        to: None,
        from: None,
        data: PacketData::DiagnosticMsg(robot_fabric::DiagnosticMsg {
            level: robot_fabric::DiagnosticStatus::Okay,
            name: "name_longer_than_sixteen".to_string(),
            message: String::new(),
            values: Vec::new(),
        }),
        time: 0,
        id: 0,
    };
    let mut encode_buffer = vec![0u8; 200];
    let result = encode_packet(&message, &mut encode_buffer);
    assert!(matches!(result, Err(PacketEncodeErr::SerializationError)));
}

// Encode an envelope, stream its delimited frame through a packet finder
// one byte at a time, decode the emitted frame, and expect exact
// equality.
#[test]
fn test_frame_roundtrip_through_finder() {
    let message = clock_request_packet(1000, 2000, 0);
    let frame = encode_frame(&message).unwrap();

    let mut finder = PacketFinder::new();
    let mut emitted: Vec<Vec<u8>> = Vec::new();
    for byte in frame.iter() {
        if let Some(packet) = finder.push_byte(*byte) {
            if !packet.is_empty() {
                emitted.push(packet);
            }
        }
    }
    assert_eq!(emitted.len(), 1);
    let decoded = decode_packet(&emitted[0]).unwrap();
    assert_eq!(decoded, message);
}

#[test]
fn test_packet_finder_single_packet() {
    let mut finder = PacketFinder::new();

    assert!(finder.push_byte(0x00).is_none());
    assert!(finder.push_byte(0x01).is_none());
    assert!(finder.push_byte(0x02).is_none());
    assert!(finder.push_byte(0x03).is_none());

    let packet = finder.push_byte(0x00).expect("Should return a packet");
    assert_eq!(packet.as_slice(), &[0x01, 0x02, 0x03]);
}

#[test]
fn test_packet_finder_multiple_packets() {
    let mut finder = PacketFinder::new();

    assert!(finder.push_byte(0x00).is_none());
    assert!(finder.push_byte(0xAA).is_none());
    let packet1 = finder.push_byte(0x00).expect("Should return first packet");
    assert_eq!(packet1.as_slice(), &[0xAA]);

    let gap = finder.push_byte(0x00).expect("Gap");
    assert_eq!(gap.as_slice(), &[] as &[u8]);
    assert!(finder.push_byte(0xBB).is_none());
    assert!(finder.push_byte(0xCC).is_none());
    let packet2 = finder.push_byte(0x00).expect("Should return second packet");
    assert_eq!(packet2.as_slice(), &[0xBB, 0xCC]);
}

#[test]
fn test_packet_finder_empty_packet() {
    let mut finder = PacketFinder::new();

    assert!(finder.push_byte(0x00).is_none());
    let packet = finder.push_byte(0x00).expect("Should return packet");
    assert_eq!(packet.as_slice(), &[] as &[u8]);
}

#[test]
fn test_packet_finder_no_start_delimiter() {
    let mut finder = PacketFinder::new();

    assert!(finder.push_byte(0x01).is_none());
    assert!(finder.push_byte(0x02).is_none());
    assert!(finder.push_byte(0x03).is_none());

    assert!(finder.push_byte(0x00).is_none());
    assert!(finder.push_byte(0xAA).is_none());
    let packet = finder.push_byte(0x00).expect("Should return packet");
    assert_eq!(packet.as_slice(), &[0xAA]);
}

#[test]
fn test_packet_finder_buffer_overflow() {
    let mut finder = PacketFinder::new();

    assert!(finder.push_byte(0x00).is_none());

    for _i in 1..512 {
        let result = finder.push_byte(0x02);
        assert!(
            result.is_none(),
            "Should not return packet until buffer full or reset"
        );
    }

    assert!(finder.push_byte(0xFF).is_none());

    assert!(finder.push_byte(0x00).is_none());
    assert!(finder.push_byte(0xAA).is_none());
    let packet = finder
        .push_byte(0x00)
        .expect("Should return packet after reset");
    assert_eq!(packet.as_slice(), &[0xAA]);
}

#[test]
fn test_packet_finder_partial_packet_then_reset() {
    let mut finder = PacketFinder::new();

    assert!(finder.push_byte(0x00).is_none());
    assert!(finder.push_byte(0x01).is_none());
    assert!(finder.push_byte(0x02).is_none());

    let packet = finder
        .push_byte(0x00)
        .expect("Should return partial packet");
    assert_eq!(packet.as_slice(), &[0x01, 0x02]);

    assert!(finder.push_byte(0xBB).is_none());
    let packet2 = finder.push_byte(0x00).expect("Should return new packet");
    assert_eq!(packet2.as_slice(), &[0xBB]);
}

#[test]
fn test_packet_finder_consecutive_delimiters() {
    let mut finder = PacketFinder::new();

    assert!(finder.push_byte(0x00).is_none());
    let packet1 = finder
        .push_byte(0x00)
        .expect("Should return packet with single delimiter");
    assert_eq!(packet1.as_slice(), &[] as &[u8]);

    let packet2 = finder
        .push_byte(0x00)
        .expect("Should return another packet with single delimiter");
    assert_eq!(packet2.as_slice(), &[] as &[u8]);

    let packet3 = finder
        .push_byte(0x00)
        .expect("Should return a third packet with single delimiter");
    assert_eq!(packet3.as_slice(), &[] as &[u8]);
}

// The leading delimiter of one frame terminates the previous one, so
// back-to-back frames share a delimiter, and a doubled delimiter emits an
// empty frame between them.
#[test]
fn test_packet_finder_stream_emissions() {
    let mut finder = PacketFinder::new();
    let mut emitted: Vec<Vec<u8>> = Vec::new();
    for byte in [0x00u8, 0xAA, 0x00, 0xBB, 0xCC, 0x00] {
        if let Some(packet) = finder.push_byte(byte) {
            emitted.push(packet);
        }
    }
    assert_eq!(emitted.len(), 2);
    assert_eq!(emitted[0].as_slice(), &[0xAA]);
    assert_eq!(emitted[1].as_slice(), &[0xBB, 0xCC]);

    let mut finder = PacketFinder::new();
    let mut emitted: Vec<Vec<u8>> = Vec::new();
    for byte in [0x00u8, 0xAA, 0x00, 0x00, 0xBB, 0xCC, 0x00] {
        if let Some(packet) = finder.push_byte(byte) {
            emitted.push(packet);
        }
    }
    assert_eq!(emitted.len(), 3);
    assert_eq!(emitted[0].as_slice(), &[0xAA]);
    assert_eq!(emitted[1].as_slice(), &[] as &[u8]);
    assert_eq!(emitted[2].as_slice(), &[0xBB, 0xCC]);
}

// Replaying the emitted frames of an arbitrary stream, rejoined with
// delimiters, yields the same frames.
#[test]
fn test_packet_finder_replay() {
    let stream: Vec<u8> = vec![
        0x17, 0x00, 0xAA, 0xBB, 0x00, 0x00, 0x01, 0x02, 0x03, 0x00, 0x7F, 0x00,
    ];
    let mut finder = PacketFinder::new();
    let mut first: Vec<Vec<u8>> = Vec::new();
    for byte in stream.iter() {
        if let Some(packet) = finder.push_byte(*byte) {
            first.push(packet);
        }
    }

    let mut rejoined: Vec<u8> = vec![0x00];
    for frame in first.iter() {
        rejoined.extend_from_slice(frame);
        rejoined.push(0x00);
    }

    let mut replay_finder = PacketFinder::new();
    let mut second: Vec<Vec<u8>> = Vec::new();
    for byte in rejoined.iter() {
        if let Some(packet) = replay_finder.push_byte(*byte) {
            second.push(packet);
        }
    }
    assert_eq!(first, second);
}
