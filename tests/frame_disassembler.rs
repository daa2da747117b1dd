use uavcan::can_frame::{CanFrame, CanID};
use uavcan::crc::TransferCrc;
use uavcan::disassembler::{FrameDisassembler, TransferFrame, UavcanFrame};
use uavcan::reassembler::{FrameReassembler, ReassemblyError};
use uavcan::serializer::{SerializationResult, Serializer};
use uavcan::bits::BitBuffer;
use uavcan::tail_byte::TailByte;
use uavcan::value::{CastMode, Field, Primitive};

fn tail(start: bool, end: bool, toggle: bool, transfer_id: u8) -> u8 {
    TailByte { start_of_transfer: start, end_of_transfer: end, toggle, transfer_id }.encode()
}

fn uint(bits: u8, value: u64) -> Primitive {
    Primitive::Unsigned { bits, mode: CastMode::Saturated, value }
}

fn to_can(f: TransferFrame) -> CanFrame {
    CanFrame::with_data(f.id, &f.data)
}

fn bytes_of(s: &str) -> Vec<Field> {
    s.bytes().map(|b| Field::Single(uint(8, b as u64))).collect()
}

/// Message identifier of priority 0, type 341, sent by node 32.
const NODE_STATUS_ID: u32 = (341 << 8) | 32;
/// Message identifier of priority 0, type 16383, sent by node 32.
const LOG_MESSAGE_ID: u32 = (16383 << 8) | 32;
const LOG_MESSAGE_SIGNATURE: u64 = 0xd654a48e0c049d75;

fn node_status() -> Vec<Field> {
    vec![
        Field::Single(uint(32, 1)),
        Field::Single(uint(2, 2)),
        Field::Single(uint(3, 3)),
        Field::Single(uint(3, 4)),
        Field::Single(uint(16, 5)),
    ]
}

fn log_message() -> Vec<Field> {
    vec![
        Field::Composite(vec![Field::Single(uint(3, 0))]),
        Field::DynamicArray { max_len: 31, items: bytes_of("test source") },
        Field::DynamicArray { max_len: 90, items: bytes_of("test text") },
    ]
}

#[test]
fn serialize_node_status_frame() {
    let can_frame = CanFrame {
        id: CanID::Extended(NODE_STATUS_ID),
        dlc: 8,
        data: [1, 0, 0, 0, 0b10011100, 5, 0, tail(true, true, false, 0)],
    };
    let frame = UavcanFrame { id: NODE_STATUS_ID, data_type_signature: 0, body: node_status() };
    let mut frame_generator = FrameDisassembler::from_uavcan_frame(frame, 0, 8);
    assert_eq!(frame_generator.next_transfer_frame().map(to_can), Some(can_frame));
    assert_eq!(frame_generator.next_transfer_frame().map(to_can), None);
}

#[test]
fn serialize_multi_frame() {
    let crc = Serializer::from_structure(&log_message()).crc(LOG_MESSAGE_SIGNATURE);
    let frame = UavcanFrame { id: LOG_MESSAGE_ID, data_type_signature: LOG_MESSAGE_SIGNATURE, body: log_message() };
    let mut frame_generator = FrameDisassembler::from_uavcan_frame(frame, 0, 8);
    let id = CanID::Extended(LOG_MESSAGE_ID);

    assert_eq!(
        frame_generator.next_transfer_frame().map(to_can),
        Some(CanFrame {
            id,
            dlc: 8,
            data: [(crc & 0xff) as u8, (crc >> 8) as u8, (0 << 5) | 11, b't', b'e', b's', b't', tail(true, false, false, 0)],
        })
    );
    assert_eq!(
        frame_generator.next_transfer_frame().map(to_can),
        Some(CanFrame {
            id,
            dlc: 8,
            data: [b' ', b's', b'o', b'u', b'r', b'c', b'e', tail(false, false, true, 0)],
        })
    );
    // The text array carries its 7-bit length prefix (9), which shifts "test text" by 7 bits.
    assert_eq!(
        frame_generator.next_transfer_frame().map(to_can),
        Some(CanFrame {
            id,
            dlc: 8,
            data: [18, 232, 202, 230, 232, 64, 232, tail(false, false, false, 0)],
        })
    );
    assert_eq!(
        frame_generator.next_transfer_frame().map(to_can),
        Some(CanFrame {
            id,
            dlc: 4,
            data: [202, 240, 232, tail(false, true, true, 0), 0, 0, 0, 0],
        })
    );
    assert_eq!(frame_generator.next_transfer_frame().map(to_can), None);
    assert!(frame_generator.finished());
}

#[test]
fn multi_frame_checksum_value() {
    let crc = Serializer::from_structure(&log_message()).crc(LOG_MESSAGE_SIGNATURE);
    assert_eq!(crc, 0xf118);
}

#[test]
fn checksum_check_value() {
    let mut crc = TransferCrc { value: 0xffff };
    crc.add_bytes(b"123456789");
    assert_eq!(crc.get(), 0x29b1);
}

#[test]
fn three_bit_field_single_frame() {
    let frame = UavcanFrame { id: 7, data_type_signature: 0, body: vec![Field::Single(uint(3, 0))] };
    let mut d = FrameDisassembler::from_uavcan_frame(frame, 0, 8);
    let f = d.next_transfer_frame().unwrap();
    assert_eq!(f.data, vec![0x00, 0b11000000]);
    assert!(d.finished());
    assert_eq!(d.next_transfer_frame(), None);
}

#[test]
fn empty_value_single_frame() {
    let frame = UavcanFrame { id: 7, data_type_signature: 0, body: vec![] };
    let mut d = FrameDisassembler::from_uavcan_frame(frame, 5, 8);
    let f = d.next_transfer_frame().unwrap();
    assert_eq!(f.data, vec![tail(true, true, false, 5)]);
    assert_eq!(d.next_transfer_frame(), None);
}

#[test]
fn exact_fit_single_frame() {
    let body: Vec<Field> = (0..7).map(|i| Field::Single(uint(8, i))).collect();
    let frame = UavcanFrame { id: 1, data_type_signature: 0, body };
    let mut d = FrameDisassembler::from_uavcan_frame(frame, 3, 8);
    let f = d.next_transfer_frame().unwrap();
    assert_eq!(f.data, vec![0, 1, 2, 3, 4, 5, 6, tail(true, true, false, 3)]);
    assert_eq!(d.next_transfer_frame(), None);
}

#[test]
fn one_bit_over_goes_multi_frame() {
    let mut body: Vec<Field> = (0..7).map(|i| Field::Single(uint(8, i))).collect();
    body.push(Field::Single(uint(1, 1)));
    let crc = Serializer::from_structure(&body).crc(9);
    let frame = UavcanFrame { id: 1, data_type_signature: 9, body };
    let mut d = FrameDisassembler::from_uavcan_frame(frame, 0, 8);
    let f0 = d.next_transfer_frame().unwrap();
    assert_eq!(f0.data, vec![(crc & 0xff) as u8, (crc >> 8) as u8, 0, 1, 2, 3, 4, tail(true, false, false, 0)]);
    let f1 = d.next_transfer_frame().unwrap();
    assert_eq!(f1.data, vec![5, 6, 0x80, tail(false, true, true, 0)]);
    assert_eq!(d.next_transfer_frame(), None);
    assert_eq!(d.next_transfer_frame(), None);
}

fn log_frames() -> Vec<Vec<u8>> {
    let frame = UavcanFrame { id: LOG_MESSAGE_ID, data_type_signature: LOG_MESSAGE_SIGNATURE, body: log_message() };
    let mut d = FrameDisassembler::from_uavcan_frame(frame, 0, 8);
    let mut out = Vec::new();
    while let Some(f) = d.next_transfer_frame() {
        out.push(f.data);
    }
    out
}

#[test]
fn log_message_toggles_and_end() {
    let frames = log_frames();
    assert_eq!(frames.len(), 4);
    for (i, f) in frames.iter().enumerate() {
        let t = TailByte::decode(*f.last().unwrap());
        assert_eq!(t.toggle, i % 2 == 1);
        assert_eq!(t.start_of_transfer, i == 0);
        assert_eq!(t.end_of_transfer, i == 3);
        assert_eq!(t.transfer_id, 0);
    }
}

#[test]
fn round_trip_through_reassembler() {
    let frames = log_frames();
    let mut r = FrameReassembler::new(LOG_MESSAGE_SIGNATURE);
    for f in &frames[..3] {
        assert_eq!(r.receive(f), Ok(None));
    }
    let payload = r.receive(&frames[3]).unwrap().unwrap();
    let mut expected = BitBuffer::with_length(22);
    let mut s = Serializer::from_structure(&log_message());
    assert_eq!(s.serialize(&mut expected), SerializationResult::Finished);
    assert_eq!(payload, expected.into_bytes());
}

#[test]
fn round_trip_small_capacity() {
    let frame = UavcanFrame { id: 1, data_type_signature: 77, body: log_message() };
    let mut d = FrameDisassembler::from_uavcan_frame(frame, 1, 3);
    let mut r = FrameReassembler::new(77);
    let mut result = None;
    while let Some(f) = d.next_transfer_frame() {
        assert_eq!(f.data.len() <= 3, true);
        if let Some(p) = r.receive(&f.data).unwrap() {
            result = Some(p);
        }
    }
    let mut expected = BitBuffer::with_length(22);
    let mut s = Serializer::from_structure(&log_message());
    s.serialize(&mut expected);
    assert_eq!(result, Some(expected.into_bytes()));
}

#[test]
fn skipped_frame_is_toggle_mismatch() {
    let frames = log_frames();
    let mut r = FrameReassembler::new(LOG_MESSAGE_SIGNATURE);
    assert_eq!(r.receive(&frames[0]), Ok(None));
    assert_eq!(r.receive(&frames[2]), Err(ReassemblyError::ToggleMismatch));
    assert_eq!(r.receive(&frames[3]), Err(ReassemblyError::UnexpectedFrame));
}

#[test]
fn corrupted_payload_is_checksum_mismatch() {
    let mut frames = log_frames();
    frames[1][0] ^= 1;
    let mut r = FrameReassembler::new(LOG_MESSAGE_SIGNATURE);
    for f in &frames[..3] {
        assert_eq!(r.receive(f), Ok(None));
    }
    assert_eq!(r.receive(&frames[3]), Err(ReassemblyError::ChecksumMismatch));
}

#[test]
fn malformed_frames() {
    let mut r = FrameReassembler::new(0);
    assert_eq!(r.receive(&[]), Err(ReassemblyError::MalformedFrame));
    assert_eq!(r.receive(&[0, tail(true, false, false, 0)]), Err(ReassemblyError::MalformedFrame));
}

#[test]
fn new_start_preempts_transfer() {
    let frames = log_frames();
    let mut r = FrameReassembler::new(LOG_MESSAGE_SIGNATURE);
    assert!(!r.in_progress());
    assert_eq!(r.receive(&frames[0]), Ok(None));
    assert!(r.in_progress());
    assert_eq!(r.receive(&[0x2a, tail(true, true, false, 0)]), Ok(Some(vec![0x2a])));
    assert!(!r.in_progress());
    assert_eq!(r.receive(&frames[1]), Err(ReassemblyError::UnexpectedFrame));
}

#[test]
fn tail_byte_round_trip() {
    let b = tail(true, false, true, 37);
    assert_eq!(b, 0b1010_0101);
    let t = TailByte::decode(b);
    assert_eq!(t, TailByte::new(true, false, true, 5));
}

#[test]
fn saturated_and_truncated_casts() {
    let body = vec![
        Field::Single(Primitive::Unsigned { bits: 4, mode: CastMode::Saturated, value: 300 }),
        Field::Single(Primitive::Unsigned { bits: 4, mode: CastMode::Truncated, value: 0x13 }),
        Field::Single(Primitive::Signed { bits: 4, mode: CastMode::Saturated, value: -100 }),
        Field::Single(Primitive::Signed { bits: 4, mode: CastMode::Truncated, value: -1 }),
        Field::Single(Primitive::Void { bits: 3 }),
        Field::FixedArray(vec![Field::Single(uint(1, 1)), Field::Single(uint(1, 0)), Field::Single(uint(3, 7))]),
    ];
    let mut s = Serializer::from_structure(&body);
    let mut b = BitBuffer::with_length(3);
    assert_eq!(s.serialize(&mut b), SerializationResult::Finished);
    assert_eq!(b.bit_length(), 24);
    // 1111 0011 | 1000 1111 | 000 1 0 111
    assert_eq!(b.into_bytes(), vec![0xf3, 0x8f, 0x17]);
}

#[test]
fn serializer_resumes_where_it_stopped() {
    let mut s = Serializer::from_structure(&vec![Field::Single(uint(16, 0xabcd))]);
    let mut b1 = BitBuffer::with_length(1);
    assert_eq!(s.serialize(&mut b1), SerializationResult::BufferFull);
    let mut b2 = BitBuffer::with_length(1);
    assert_eq!(s.serialize(&mut b2), SerializationResult::Finished);
    assert_eq!(b1.into_bytes(), vec![0xcd]);
    assert_eq!(b2.into_bytes(), vec![0xab]);
}

#[test]
fn eleven_bit_value_layout() {
    let mut s = Serializer::from_structure(&vec![Field::Single(uint(11, 0x5a3))]);
    let mut b = BitBuffer::with_length(2);
    assert_eq!(s.serialize(&mut b), SerializationResult::Finished);
    // low byte 0xa3, then the three high bits 101 at the top of the second byte
    assert_eq!(b.into_bytes(), vec![0xa3, 0b1010_0000]);
}

#[test]
fn buffer_exhausted() {
    let mut b = BitBuffer::with_length(0);
    assert!(b.push_bit(true).is_err());
    assert_eq!(b.remaining(), 0);
}

#[test]
fn can_frame_accessors() {
    let f = CanFrame::with_data(0x123, &[1, 2, 3]);
    assert_eq!(f.get_id(), 0x123);
    assert_eq!(f.get_data(), &[1, 2, 3]);
    assert_eq!(CanFrame::get_max_data_length(), 8);
    let g = CanFrame { id: CanID::Normal(0x7ff), dlc: 0, data: [0; 8] };
    assert_eq!(g.get_id(), 0x7ff);
}
