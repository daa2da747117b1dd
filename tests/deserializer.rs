use uavcan::bits::BitBuffer;
use uavcan::deserializer::{decode_fields, DecodeError, FieldSchema};
use uavcan::disassembler::{FrameDisassembler, UavcanFrame};
use uavcan::reassembler::FrameReassembler;
use uavcan::serializer::Serializer;
use uavcan::value::{CastMode, Field, Primitive};

fn uint(bits: u8, value: u64) -> Primitive {
    Primitive::Unsigned { bits, mode: CastMode::Saturated, value }
}

fn sint(bits: u8, value: i64) -> Primitive {
    Primitive::Signed { bits, mode: CastMode::Truncated, value }
}

fn single(p: Primitive) -> Field {
    Field::Single(p)
}

fn encode(fields: &Vec<Field>, bytes: usize) -> Vec<u8> {
    let mut b = BitBuffer::with_length(bytes);
    Serializer::from_structure(fields).serialize(&mut b);
    b.into_bytes()
}

/// A point: two signed coordinates.
fn point(x: i64, y: i64) -> Field {
    Field::Composite(vec![single(sint(7, x)), single(sint(7, y))])
}

fn point_schema() -> FieldSchema {
    FieldSchema::Composite(vec![FieldSchema::Single(sint(7, 0)), FieldSchema::Single(sint(7, 0))])
}

fn mixed() -> Vec<Field> {
    vec![
        single(sint(5, -3)),
        single(Primitive::Void { bits: 3 }),
        single(Primitive::Signed { bits: 64, mode: CastMode::Saturated, value: i64::MIN }),
        Field::FixedArray(vec![single(uint(12, 4095)), single(uint(12, 7))]),
        Field::DynamicArray { max_len: 5, items: vec![point(63, -64), point(0, 1)] },
        point(-1, 2),
    ]
}

fn mixed_schema() -> Vec<FieldSchema> {
    vec![
        FieldSchema::Single(sint(5, 0)),
        FieldSchema::Single(Primitive::Void { bits: 3 }),
        FieldSchema::Single(Primitive::Signed { bits: 64, mode: CastMode::Saturated, value: 0 }),
        FieldSchema::FixedArray { element: Box::new(FieldSchema::Single(uint(12, 0))), len: 2 },
        FieldSchema::DynamicArray { element: Box::new(point_schema()), max_len: 5 },
        point_schema(),
    ]
}

#[test]
fn decode_round_trip_mixed() {
    let payload = encode(&mixed(), 20);
    assert_eq!(decode_fields(&mixed_schema(), &payload), Ok(mixed()));
}

#[test]
fn decode_after_reassembly() {
    let frame = UavcanFrame { id: 3, data_type_signature: 0x1234, body: mixed() };
    let mut d = FrameDisassembler::from_uavcan_frame(frame, 2, 8);
    let mut r = FrameReassembler::new(0x1234);
    let mut payload = None;
    while let Some(f) = d.next_transfer_frame() {
        if let Some(p) = r.receive(&f.data).unwrap() {
            payload = Some(p);
        }
    }
    assert_eq!(decode_fields(&mixed_schema(), &payload.unwrap()), Ok(mixed()));
}

#[test]
fn decode_not_enough_bits() {
    let schema = vec![FieldSchema::Single(uint(16, 0))];
    assert_eq!(decode_fields(&schema, &vec![0xff]), Err(DecodeError::NotEnoughBits));
}

#[test]
fn decode_length_out_of_range() {
    // a 3-bit prefix for at most 5 elements, holding 7
    let schema = vec![FieldSchema::DynamicArray { element: Box::new(FieldSchema::Single(uint(8, 0))), max_len: 5 }];
    assert_eq!(decode_fields(&schema, &vec![0b1110_0000]), Err(DecodeError::LengthOutOfRange));
}

#[test]
fn decode_non_zero_padding() {
    let schema = vec![FieldSchema::Single(Primitive::Void { bits: 4 })];
    assert_eq!(decode_fields(&schema, &vec![0b0001_0000]), Err(DecodeError::NonZeroPadding));
}

#[test]
fn decode_sign_extends() {
    let schema = vec![FieldSchema::Single(sint(4, 0)), FieldSchema::Single(sint(4, 0))];
    assert_eq!(
        decode_fields(&schema, &vec![0b1000_0111]),
        Ok(vec![single(sint(4, -8)), single(sint(4, 7))])
    );
}

#[test]
fn nested_value_bits_in_place() {
    // a composite contributes its fields' bits in place, no framing
    let nested = vec![point(1, -1), single(uint(2, 3))];
    let flat = vec![single(sint(7, 1)), single(sint(7, -1)), single(uint(2, 3))];
    assert_eq!(encode(&nested, 2), encode(&flat, 2));
    assert_eq!(encode(&nested, 2), vec![0b0000_0011, 0b1111_1111]);
}
