use device_comm::assembler::FrameAssembler;
use device_comm::checksum::calculate_crc32;
use device_comm::chunker::{chunk_bytes, chunk_message};
use device_comm::frame::{
    DeviceError, Frame, RouteId, BLE_FRAME_SERIALIZED_OVERHEAD, BLE_MAX_WRITE_BYTES, DEFAULT_MTU,
    FRAME_MAGIC, FRAME_OVERHEAD, PROTOCOL_VERSION,
};
use prost::encoding::{self, DecodeContext, WireType};
use uuid::Uuid;

/// Route summary fields as the schema numbers them.
struct Summary {
    route_id: Vec<u8>,
    distance_m: u32,
    eta_unix_ms: u64,
    next_turn_text: String,
    next_turn_bearing_deg: u32,
    remaining_distance_m: u32,
    estimated_duration_s: u32,
    bbox: (f64, f64, f64, f64),
}

fn encode_summary(s: &Summary) -> Vec<u8> {
    let mut header = Vec::new();
    encoding::uint32::encode(1, &1u32, &mut header);
    encoding::uint32::encode(2, &1u32, &mut header);
    let mut bbox = Vec::new();
    encoding::double::encode(1, &s.bbox.0, &mut bbox);
    encoding::double::encode(2, &s.bbox.1, &mut bbox);
    encoding::double::encode(3, &s.bbox.2, &mut bbox);
    encoding::double::encode(4, &s.bbox.3, &mut bbox);
    let mut inner = Vec::new();
    encoding::bytes::encode(1, &header, &mut inner);
    encoding::bytes::encode(2, &s.route_id, &mut inner);
    encoding::uint32::encode(3, &s.distance_m, &mut inner);
    encoding::uint64::encode(4, &s.eta_unix_ms, &mut inner);
    encoding::string::encode(5, &s.next_turn_text, &mut inner);
    encoding::uint32::encode(6, &s.next_turn_bearing_deg, &mut inner);
    encoding::uint32::encode(7, &s.remaining_distance_m, &mut inner);
    encoding::uint32::encode(8, &s.estimated_duration_s, &mut inner);
    encoding::bytes::encode(9, &bbox, &mut inner);
    let mut msg = Vec::new();
    encoding::bytes::encode(1, &inner, &mut msg);
    msg
}

/// Decodes a message holding a route summary: its distance and turn text.
fn decode_summary(bytes: &[u8]) -> (u32, String) {
    let mut outer: &[u8] = bytes;
    let mut inner: Vec<u8> = Vec::new();
    while !outer.is_empty() {
        let (tag, wt) = encoding::decode_key(&mut outer).unwrap();
        if tag == 1 {
            encoding::bytes::merge(wt, &mut inner, &mut outer, DecodeContext::default()).unwrap();
        } else {
            encoding::skip_field(wt, tag, &mut outer, DecodeContext::default()).unwrap();
        }
    }
    let mut buf: &[u8] = &inner;
    let mut distance = 0u32;
    let mut text = String::new();
    while !buf.is_empty() {
        let (tag, wt) = encoding::decode_key(&mut buf).unwrap();
        match tag {
            3 => encoding::uint32::merge(wt, &mut distance, &mut buf, DecodeContext::default())
                .unwrap(),
            5 => encoding::string::merge(wt, &mut text, &mut buf, DecodeContext::default())
                .unwrap(),
            _ => encoding::skip_field(wt, tag, &mut buf, DecodeContext::default()).unwrap(),
        }
    }
    (distance, text)
}

fn sample_summary(route_id: &Uuid) -> Vec<u8> {
    encode_summary(&Summary {
        route_id: route_id.as_bytes().to_vec(),
        distance_m: 5000,
        eta_unix_ms: 1234567890000,
        next_turn_text: "Turn left".to_string(),
        next_turn_bearing_deg: 90,
        remaining_distance_m: 4000,
        estimated_duration_s: 600,
        bbox: (52.0, 4.0, 52.5, 4.5),
    })
}

fn message_of(len: usize) -> Vec<u8> {
    (0..len).map(|i| (i * 7 + 3) as u8).collect()
}

fn feed(frames: &[Frame]) -> FrameAssembler {
    let mut assembler = FrameAssembler::new();
    for frame in frames {
        assembler.add_frame(frame.clone()).unwrap();
    }
    assembler
}

#[test]
fn test_crc32_calculation() {
    let data = b"Hello, World!";
    let crc = calculate_crc32(data);
    assert_ne!(crc, 0);
}

#[test]
fn crc32_check_value() {
    assert_eq!(calculate_crc32(b"123456789"), 0xCBF4_3926);
    assert_eq!(calculate_crc32(b""), 0);
}

#[test]
fn test_frame_chunking_and_assembly() {
    let route_id = Uuid::new_v4();
    let encoded = sample_summary(&route_id);

    let frames = chunk_message(&encoded, &RouteId { bytes: *route_id.as_bytes() }, 1, DEFAULT_MTU);
    assert!(!frames.is_empty());

    let mut assembler = FrameAssembler::new();
    for frame in frames {
        assembler.add_frame(frame).unwrap();
    }

    assert!(assembler.is_complete());
    let reassembled = assembler.assemble().unwrap();
    assert_eq!(reassembled, encoded);
}

#[test]
fn route_summary_decodes_after_reassembly_in_any_order() {
    let route_id = Uuid::new_v4();
    let encoded = sample_summary(&route_id);
    for mtu in [DEFAULT_MTU, 41, 50] {
        let frames = chunk_message(&encoded, &RouteId { bytes: *route_id.as_bytes() }, 1, mtu);
        assert!(!frames.is_empty());
        let mut reversed = frames.clone();
        reversed.reverse();
        let assembler = feed(&reversed);
        assert!(assembler.is_complete());
        let bytes = assembler.assemble().unwrap();
        let (distance, text) = decode_summary(&bytes);
        assert_eq!(distance, 5000);
        assert_eq!(text, "Turn left");
    }
}

#[test]
fn chunk_fields_follow_the_wire_format() {
    let route_id = Uuid::new_v4();
    let message = message_of(500);
    let frames = chunk_message(&message, &RouteId { bytes: *route_id.as_bytes() }, 7, DEFAULT_MTU);
    // 207 bytes per frame at the default MTU: 207 + 207 + 86.
    assert_eq!(frames.len(), 3);
    let lens: Vec<u32> = frames.iter().map(|f| f.payload_len).collect();
    assert_eq!(lens, vec![207, 207, 86]);
    for (i, f) in frames.iter().enumerate() {
        assert_eq!(f.magic, FRAME_MAGIC);
        assert_eq!(f.msg_type, 7);
        assert_eq!(f.protocol_version, PROTOCOL_VERSION);
        assert_eq!(f.route_id, route_id.as_bytes().to_vec());
        assert_eq!(f.seq_no, i as u32);
        assert_eq!(f.total_seqs, 3);
        assert_eq!(f.flags, 0);
        assert_eq!(f.payload_len as usize, f.payload.len());
        assert_eq!(f.crc32, calculate_crc32(&f.payload));
        assert_eq!(f.payload, message[i * 207..(i * 207 + f.payload.len())].to_vec());
    }
}

#[test]
fn chunk_size_is_capped_by_platform_write_limit() {
    let message = message_of(2000);
    let frames = chunk_bytes(&message, &[9u8; 16], 1, 1000);
    let cap = (BLE_MAX_WRITE_BYTES - BLE_FRAME_SERIALIZED_OVERHEAD) as u32;
    assert_eq!(cap, 462);
    assert_eq!(frames.len(), 5);
    assert!(frames.iter().all(|f| f.payload_len <= cap));
    assert_eq!(frames[0].payload_len, 462);
    assert_eq!(frames[4].payload_len, 2000 - 4 * 462);
}

#[test]
fn chunk_size_bound_holds_for_many_mtus() {
    let message = message_of(1500);
    for mtu in [41usize, 60, 100, 247, 501, 502, 503, 600, 4096] {
        let frames = chunk_bytes(&message, &[1u8; 16], 3, mtu);
        let bound = std::cmp::min(mtu - FRAME_OVERHEAD, 512 - 50) as u32;
        assert!(frames.iter().all(|f| f.payload_len <= bound));
        let size = bound as usize;
        assert_eq!(frames.len(), (message.len() + size - 1) / size);
    }
}

#[test]
fn round_trip_for_many_lengths_and_mtus() {
    for len in [1usize, 2, 206, 207, 208, 414, 1000, 5000] {
        for mtu in [41usize, 100, 247, 600] {
            let message = message_of(len);
            let frames = chunk_bytes(&message, &[4u8; 16], 2, mtu);
            let assembler = feed(&frames);
            assert!(assembler.is_complete());
            assert!(assembler.missing_sequences().is_empty());
            assert_eq!(assembler.assemble().unwrap(), message);
        }
    }
}

#[test]
fn empty_message_travels_in_one_empty_frame() {
    let frames = chunk_bytes(&[], &[0u8; 16], 1, DEFAULT_MTU);
    assert_eq!(frames.len(), 1);
    assert_eq!(frames[0].total_seqs, 1);
    assert_eq!(frames[0].payload_len, 0);
    let assembler = feed(&frames);
    assert!(assembler.is_complete());
    assert_eq!(assembler.assemble().unwrap(), Vec::<u8>::new());
}

#[test]
fn order_independence() {
    let message = message_of(1000);
    let frames = chunk_bytes(&message, &[5u8; 16], 1, 100);
    assert!(frames.len() > 3);
    let in_order = feed(&frames).assemble().unwrap();
    let mut rotated = frames.clone();
    rotated.rotate_left(2);
    let mut reversed = frames.clone();
    reversed.reverse();
    let mut interleaved: Vec<Frame> = frames.iter().step_by(2).cloned().collect();
    interleaved.extend(frames.iter().skip(1).step_by(2).cloned());
    for order in [rotated, reversed, interleaved] {
        let assembler = feed(&order);
        assert!(assembler.is_complete());
        assert_eq!(assembler.assemble().unwrap(), in_order);
    }
    assert_eq!(in_order, message);
}

#[test]
fn corrupted_payload_byte_is_rejected() {
    let message = message_of(300);
    let frames = chunk_bytes(&message, &[6u8; 16], 1, DEFAULT_MTU);
    for pos in 0..frames[1].payload.len() {
        let mut assembler = FrameAssembler::new();
        assembler.add_frame(frames[0].clone()).unwrap();
        let mut bad = frames[1].clone();
        bad.payload[pos] ^= 0x01;
        let actual = calculate_crc32(&bad.payload);
        match assembler.add_frame(bad) {
            Err(DeviceError::CrcMismatch { expected, actual: got }) => {
                assert_eq!(expected, frames[1].crc32);
                assert_eq!(got, actual);
            }
            other => panic!("expected a checksum mismatch, got {:?}", other),
        }
        assert!(!assembler.is_complete());
        assert_eq!(assembler.missing_sequences(), vec![1]);
    }
}

#[test]
fn bad_magic_is_rejected_and_state_kept() {
    let frames = chunk_bytes(&message_of(10), &[6u8; 16], 1, DEFAULT_MTU);
    let mut assembler = FrameAssembler::new();
    let mut bad = frames[0].clone();
    bad.magic = 0x1234_5678;
    assert!(matches!(assembler.add_frame(bad), Err(DeviceError::InvalidFrame(_))));
    assert!(!assembler.is_complete());
    assert!(assembler.missing_sequences().is_empty());
    assembler.add_frame(frames[0].clone()).unwrap();
    assert!(assembler.is_complete());
}

#[test]
fn malformed_route_id_is_rejected_on_first_frame() {
    let frames = chunk_bytes(&message_of(10), &[6u8; 5], 1, DEFAULT_MTU);
    let mut assembler = FrameAssembler::new();
    assert!(matches!(
        assembler.add_frame(frames[0].clone()),
        Err(DeviceError::InvalidFrame(_))
    ));
    assert!(!assembler.is_complete());
    assert!(matches!(assembler.assemble(), Err(DeviceError::MissingSequence(0))));
}

#[test]
fn loss_detection() {
    let message = message_of(1000);
    let frames = chunk_bytes(&message, &[7u8; 16], 1, 100);
    let n = frames.len();
    for k in 0..n {
        let mut partial = frames.clone();
        partial.remove(k);
        let assembler = feed(&partial);
        assert!(!assembler.is_complete());
        assert_eq!(assembler.missing_sequences(), vec![k as u32]);
        match assembler.assemble() {
            Err(DeviceError::MissingSequence(s)) => assert_eq!(s, k as u32),
            other => panic!("expected a missing sequence, got {:?}", other),
        }
    }
}

#[test]
fn assemble_on_empty_reports_sequence_zero() {
    let assembler = FrameAssembler::new();
    assert!(!assembler.is_complete());
    assert!(assembler.missing_sequences().is_empty());
    assert!(matches!(assembler.assemble(), Err(DeviceError::MissingSequence(0))));
}

#[test]
fn stray_sequence_beyond_count_is_invalid() {
    let frames = chunk_bytes(&message_of(10), &[8u8; 16], 1, DEFAULT_MTU);
    let mut stray = frames[0].clone();
    stray.seq_no = 5;
    let mut assembler = feed(&frames);
    assembler.add_frame(stray).unwrap();
    assert!(!assembler.is_complete());
    assert!(assembler.missing_sequences().is_empty());
    assert!(matches!(assembler.assemble(), Err(DeviceError::InvalidFrame(_))));
}

#[test]
fn redelivery_is_idempotent() {
    let message = message_of(600);
    let frames = chunk_bytes(&message, &[2u8; 16], 1, DEFAULT_MTU);
    let mut assembler = FrameAssembler::new();
    for frame in &frames {
        assembler.add_frame(frame.clone()).unwrap();
        assembler.add_frame(frame.clone()).unwrap();
    }
    assert!(assembler.is_complete());
    assert_eq!(assembler.assemble().unwrap(), message);
    let mut partial = FrameAssembler::new();
    partial.add_frame(frames[0].clone()).unwrap();
    partial.add_frame(frames[0].clone()).unwrap();
    assert!(!partial.is_complete());
    assert_eq!(partial.missing_sequences(), vec![1, 2]);
}

#[test]
fn reset_reuse() {
    let first = message_of(700);
    let second: Vec<u8> = message_of(90).into_iter().rev().collect();
    let first_frames = chunk_bytes(&first, &[1u8; 16], 1, 100);
    let second_frames = chunk_bytes(&second, &[2u8; 16], 3, DEFAULT_MTU);
    let mut assembler = FrameAssembler::new();
    for frame in first_frames.iter().take(3) {
        assembler.add_frame(frame.clone()).unwrap();
    }
    assembler.reset();
    assert!(!assembler.is_complete());
    assert!(assembler.missing_sequences().is_empty());
    for frame in &second_frames {
        assembler.add_frame(frame.clone()).unwrap();
    }
    assert!(assembler.is_complete());
    assert_eq!(assembler.assemble().unwrap(), second);
}

#[test]
fn default_assembler_is_empty() {
    let assembler = FrameAssembler::default();
    assert!(!assembler.is_complete());
    assert!(assembler.missing_sequences().is_empty());
}

#[test]
fn complete_by_count_reports_nothing_missing() {
    let payload = vec![1u8, 2, 3];
    let frame = Frame {
        magic: FRAME_MAGIC,
        msg_type: 1,
        protocol_version: PROTOCOL_VERSION,
        route_id: vec![3u8; 16],
        seq_no: 5,
        total_seqs: 1,
        payload_len: 3,
        flags: 0,
        crc32: calculate_crc32(&payload),
        payload,
    };
    let mut assembler = FrameAssembler::new();
    assembler.add_frame(frame).unwrap();
    assert!(assembler.is_complete());
    assert!(assembler.missing_sequences().is_empty());
    assert!(matches!(assembler.assemble(), Err(DeviceError::MissingSequence(0))));
}

#[test]
fn redelivery_later_in_stream() {
    let message = message_of(900);
    let frames = chunk_bytes(&message, &[2u8; 16], 1, 100);
    let mut stream = frames.clone();
    stream.push(frames[0].clone());
    stream.insert(3, frames[1].clone());
    stream.reverse();
    let once = feed(&frames);
    let repeated = feed(&stream);
    assert_eq!(repeated.is_complete(), once.is_complete());
    assert_eq!(repeated.assemble().unwrap(), once.assemble().unwrap());
}
