use vstd::prelude::*;
use vstd::arithmetic::power::pow;
use vstd::arithmetic::power2::{pow2, lemma_pow2_unfold};
use vstd::bits::{lemma_u64_pow2_no_overflow, lemma_u64_shl_is_mul};
use crate::bits::{bit_at, bytes_bits};
use crate::value::{
    CastMode, Field, Primitive, field_bits, fields_bits, length_prefix_width, length_width,
    lemma_length_width_le_64, prim_bits, prim_raw, prim_width, signed_saturate,
    unsigned_max, value_bits,
};

verus! {

/// Where bit `i` of an `n`-bit value travels: bytes least significant first,
/// each most significant bit first.
pub open spec fn bit_position(n: nat, i: int) -> int {
    let k = i / 8;
    let w = if n - 8 * k >= 8 {
        8
    } else {
        n - 8 * k
    };
    8 * k + w - 1 - i % 8
}

pub open spec fn u64_bit(v: u64, t: int) -> bool {
    ((v >> (t as u64)) & 1u64) == 1u64
}

/// The value an `n`-bit two's-complement pattern stands for: its sign bit
/// copied into every bit above.
pub open spec fn sign_extended(n: u8, r: u64) -> i64 {
    if n > 0 && u64_bit(r, n - 1) {
        (r | !unsigned_max(n)) as i64
    } else {
        r as i64
    }
}

/// What a receiver knows of a field before reading it: the kind, width and
/// cast mode of each primitive (a template's value is not read), the fields of
/// nested values and the shape and bound of arrays.
#[derive(Debug, PartialEq, Eq)]
pub enum FieldSchema {
    Single(Primitive),
    Composite(Vec<FieldSchema>),
    FixedArray { element: Box<FieldSchema>, len: u64 },
    DynamicArray { element: Box<FieldSchema>, max_len: u64 },
}

/// Why a payload could not be read as a value of a schema.
#[derive(Clone, Copy, Debug, PartialEq, Eq, Structural)]
pub enum DecodeError {
    /// The payload ends before the value does.
    NotEnoughBits,
    /// A length prefix exceeds the array's bound.
    LengthOutOfRange,
    /// A padding field holds a set bit.
    NonZeroPadding,
}

/// Same kind, width and cast mode.
pub open spec fn same_shape(p: Primitive, q: Primitive) -> bool {
    match (p, q) {
        (Primitive::Unsigned { bits: a, mode: m, .. }, Primitive::Unsigned { bits: b, mode: n, .. }) =>
            a == b && m == n,
        (Primitive::Signed { bits: a, mode: m, .. }, Primitive::Signed { bits: b, mode: n, .. }) =>
            a == b && m == n,
        (Primitive::Void { bits: a }, Primitive::Void { bits: b }) => a == b,
        _ => false,
    }
}

pub open spec fn schema_wf(s: FieldSchema) -> bool
    decreases s,
{
    match s {
        FieldSchema::Single(p) => prim_width(p) <= 64,
        FieldSchema::Composite(v) => forall|i: int| 0 <= i < v@.len() ==> schema_wf(#[trigger] v@[i]),
        FieldSchema::FixedArray { element, .. } => schema_wf(*element),
        FieldSchema::DynamicArray { element, .. } => schema_wf(*element),
    }
}

/// Whether a field value has the shape a schema describes.
pub open spec fn conforms(f: Field, s: FieldSchema) -> bool
    decreases f,
{
    match f {
        Field::Single(p) => s is Single && same_shape(p, s->Single_0),
        Field::Composite(v) => s is Composite && v@.len() == s->Composite_0@.len() && forall|i: int|
            0 <= i < v@.len() ==> conforms(#[trigger] v@[i], s->Composite_0@[i]),
        Field::FixedArray(items) => s is FixedArray && items@.len() == s->FixedArray_len && forall|i: int|
            0 <= i < items@.len() ==> conforms(#[trigger] items@[i], *s->FixedArray_element),
        Field::DynamicArray { max_len, items } => s is DynamicArray && max_len == s->DynamicArray_max_len
            && items@.len() <= max_len && forall|i: int|
            0 <= i < items@.len() ==> conforms(#[trigger] items@[i], *s->DynamicArray_element),
    }
}

/// Whether every field value has the shape of its schema entry.
pub open spec fn conforms_all(fields: Seq<Field>, schema: Seq<FieldSchema>) -> bool {
    &&& fields.len() == schema.len()
    &&& forall|i: int| 0 <= i < fields.len() ==> conforms(#[trigger] fields[i], schema[i])
}

/// `fb` stands in `bits` from `pos` on.
pub open spec fn at_pos(bits: Seq<bool>, pos: int, fb: Seq<bool>) -> bool {
    &&& 0 <= pos
    &&& pos + fb.len() <= bits.len()
    &&& bits.subrange(pos, pos + fb.len()) == fb
}

proof fn lemma_set_bit_u64(r: u64, s: u64, t: u64, n: u64)
    requires
        s < 64,
        t < 64,
        s < n <= 64,
    ensures
        (((r | (1u64 << s)) >> t) & 1u64 == 1u64) == (t == s || ((r >> t) & 1u64 == 1u64)),
        n < 64 && r <= ((1u64 << n) - 1) as u64 ==> (r | (1u64 << s)) <= ((1u64 << n) - 1) as u64,
{
    assert((((r | (1u64 << s)) >> t) & 1u64 == 1u64) == (t == s || ((r >> t) & 1u64 == 1u64)))
        by (bit_vector)
        requires
            s < 64,
            t < 64,
    ;
    assert(n < 64 && r <= ((1u64 << n) - 1) as u64 ==> (r | (1u64 << s)) <= ((1u64 << n) - 1) as u64)
        by (bit_vector)
        requires
            s < n,
    ;
}

/// Reading back a two's-complement pattern as a signed value of the same
/// width gives a value that encodes to the same pattern, in either cast mode.
proof fn lemma_signed_reencode(n: u8, mode: CastMode, r: u64)
    requires
        n <= 64,
        r <= unsigned_max(n),
    ensures
        prim_bits(Primitive::Signed { bits: n, mode, value: sign_extended(n, r) }) == value_bits(n as nat, r),
{
    let p = Primitive::Signed { bits: n, mode, value: sign_extended(n, r) };
    let sx = sign_extended(n, r);
    if n == 0 {
        assert(prim_bits(p) =~= value_bits(n as nat, r));
    } else {
        if n < 64 {
            lemma_sign_range_bv(r, n, sx);
            assert((1u64 << ((n - 1) as u8)) <= 0x4000_0000_0000_0000u64) by (bit_vector)
                requires
                    1 <= n < 64,
            ;
            assert(signed_saturate(n, sx) == sx);
        }
        assert(prim_raw(p) == sx as u64);
        assert forall|i: int| 0 <= i < n implies #[trigger] prim_bits(p)[i] == value_bits(n as nat, r)[i] by {
            lemma_positions(n as nat, i, i);
            let t = bit_position(n as nat, i);
            lemma_sign_bits_bv(r, n, sx, t as u64);
        }
        assert(prim_bits(p) =~= value_bits(n as nat, r));
    }
}

proof fn lemma_u64_eq_from_bits(a: u64, b: u64)
    requires
        ((a >> 0u64) & 1u64 == 1u64) == ((b >> 0u64) & 1u64 == 1u64),
        ((a >> 1u64) & 1u64 == 1u64) == ((b >> 1u64) & 1u64 == 1u64),
        ((a >> 2u64) & 1u64 == 1u64) == ((b >> 2u64) & 1u64 == 1u64),
        ((a >> 3u64) & 1u64 == 1u64) == ((b >> 3u64) & 1u64 == 1u64),
        ((a >> 4u64) & 1u64 == 1u64) == ((b >> 4u64) & 1u64 == 1u64),
        ((a >> 5u64) & 1u64 == 1u64) == ((b >> 5u64) & 1u64 == 1u64),
        ((a >> 6u64) & 1u64 == 1u64) == ((b >> 6u64) & 1u64 == 1u64),
        ((a >> 7u64) & 1u64 == 1u64) == ((b >> 7u64) & 1u64 == 1u64),
        ((a >> 8u64) & 1u64 == 1u64) == ((b >> 8u64) & 1u64 == 1u64),
        ((a >> 9u64) & 1u64 == 1u64) == ((b >> 9u64) & 1u64 == 1u64),
        ((a >> 10u64) & 1u64 == 1u64) == ((b >> 10u64) & 1u64 == 1u64),
        ((a >> 11u64) & 1u64 == 1u64) == ((b >> 11u64) & 1u64 == 1u64),
        ((a >> 12u64) & 1u64 == 1u64) == ((b >> 12u64) & 1u64 == 1u64),
        ((a >> 13u64) & 1u64 == 1u64) == ((b >> 13u64) & 1u64 == 1u64),
        ((a >> 14u64) & 1u64 == 1u64) == ((b >> 14u64) & 1u64 == 1u64),
        ((a >> 15u64) & 1u64 == 1u64) == ((b >> 15u64) & 1u64 == 1u64),
        ((a >> 16u64) & 1u64 == 1u64) == ((b >> 16u64) & 1u64 == 1u64),
        ((a >> 17u64) & 1u64 == 1u64) == ((b >> 17u64) & 1u64 == 1u64),
        ((a >> 18u64) & 1u64 == 1u64) == ((b >> 18u64) & 1u64 == 1u64),
        ((a >> 19u64) & 1u64 == 1u64) == ((b >> 19u64) & 1u64 == 1u64),
        ((a >> 20u64) & 1u64 == 1u64) == ((b >> 20u64) & 1u64 == 1u64),
        ((a >> 21u64) & 1u64 == 1u64) == ((b >> 21u64) & 1u64 == 1u64),
        ((a >> 22u64) & 1u64 == 1u64) == ((b >> 22u64) & 1u64 == 1u64),
        ((a >> 23u64) & 1u64 == 1u64) == ((b >> 23u64) & 1u64 == 1u64),
        ((a >> 24u64) & 1u64 == 1u64) == ((b >> 24u64) & 1u64 == 1u64),
        ((a >> 25u64) & 1u64 == 1u64) == ((b >> 25u64) & 1u64 == 1u64),
        ((a >> 26u64) & 1u64 == 1u64) == ((b >> 26u64) & 1u64 == 1u64),
        ((a >> 27u64) & 1u64 == 1u64) == ((b >> 27u64) & 1u64 == 1u64),
        ((a >> 28u64) & 1u64 == 1u64) == ((b >> 28u64) & 1u64 == 1u64),
        ((a >> 29u64) & 1u64 == 1u64) == ((b >> 29u64) & 1u64 == 1u64),
        ((a >> 30u64) & 1u64 == 1u64) == ((b >> 30u64) & 1u64 == 1u64),
        ((a >> 31u64) & 1u64 == 1u64) == ((b >> 31u64) & 1u64 == 1u64),
        ((a >> 32u64) & 1u64 == 1u64) == ((b >> 32u64) & 1u64 == 1u64),
        ((a >> 33u64) & 1u64 == 1u64) == ((b >> 33u64) & 1u64 == 1u64),
        ((a >> 34u64) & 1u64 == 1u64) == ((b >> 34u64) & 1u64 == 1u64),
        ((a >> 35u64) & 1u64 == 1u64) == ((b >> 35u64) & 1u64 == 1u64),
        ((a >> 36u64) & 1u64 == 1u64) == ((b >> 36u64) & 1u64 == 1u64),
        ((a >> 37u64) & 1u64 == 1u64) == ((b >> 37u64) & 1u64 == 1u64),
        ((a >> 38u64) & 1u64 == 1u64) == ((b >> 38u64) & 1u64 == 1u64),
        ((a >> 39u64) & 1u64 == 1u64) == ((b >> 39u64) & 1u64 == 1u64),
        ((a >> 40u64) & 1u64 == 1u64) == ((b >> 40u64) & 1u64 == 1u64),
        ((a >> 41u64) & 1u64 == 1u64) == ((b >> 41u64) & 1u64 == 1u64),
        ((a >> 42u64) & 1u64 == 1u64) == ((b >> 42u64) & 1u64 == 1u64),
        ((a >> 43u64) & 1u64 == 1u64) == ((b >> 43u64) & 1u64 == 1u64),
        ((a >> 44u64) & 1u64 == 1u64) == ((b >> 44u64) & 1u64 == 1u64),
        ((a >> 45u64) & 1u64 == 1u64) == ((b >> 45u64) & 1u64 == 1u64),
        ((a >> 46u64) & 1u64 == 1u64) == ((b >> 46u64) & 1u64 == 1u64),
        ((a >> 47u64) & 1u64 == 1u64) == ((b >> 47u64) & 1u64 == 1u64),
        ((a >> 48u64) & 1u64 == 1u64) == ((b >> 48u64) & 1u64 == 1u64),
        ((a >> 49u64) & 1u64 == 1u64) == ((b >> 49u64) & 1u64 == 1u64),
        ((a >> 50u64) & 1u64 == 1u64) == ((b >> 50u64) & 1u64 == 1u64),
        ((a >> 51u64) & 1u64 == 1u64) == ((b >> 51u64) & 1u64 == 1u64),
        ((a >> 52u64) & 1u64 == 1u64) == ((b >> 52u64) & 1u64 == 1u64),
        ((a >> 53u64) & 1u64 == 1u64) == ((b >> 53u64) & 1u64 == 1u64),
        ((a >> 54u64) & 1u64 == 1u64) == ((b >> 54u64) & 1u64 == 1u64),
        ((a >> 55u64) & 1u64 == 1u64) == ((b >> 55u64) & 1u64 == 1u64),
        ((a >> 56u64) & 1u64 == 1u64) == ((b >> 56u64) & 1u64 == 1u64),
        ((a >> 57u64) & 1u64 == 1u64) == ((b >> 57u64) & 1u64 == 1u64),
        ((a >> 58u64) & 1u64 == 1u64) == ((b >> 58u64) & 1u64 == 1u64),
        ((a >> 59u64) & 1u64 == 1u64) == ((b >> 59u64) & 1u64 == 1u64),
        ((a >> 60u64) & 1u64 == 1u64) == ((b >> 60u64) & 1u64 == 1u64),
        ((a >> 61u64) & 1u64 == 1u64) == ((b >> 61u64) & 1u64 == 1u64),
        ((a >> 62u64) & 1u64 == 1u64) == ((b >> 62u64) & 1u64 == 1u64),
        ((a >> 63u64) & 1u64 == 1u64) == ((b >> 63u64) & 1u64 == 1u64),
    ensures
        a == b,
{
    assert(a == b) by (bit_vector)
        requires
            ((a >> 0u64) & 1u64 == 1u64) == ((b >> 0u64) & 1u64 == 1u64),
            ((a >> 1u64) & 1u64 == 1u64) == ((b >> 1u64) & 1u64 == 1u64),
            ((a >> 2u64) & 1u64 == 1u64) == ((b >> 2u64) & 1u64 == 1u64),
            ((a >> 3u64) & 1u64 == 1u64) == ((b >> 3u64) & 1u64 == 1u64),
            ((a >> 4u64) & 1u64 == 1u64) == ((b >> 4u64) & 1u64 == 1u64),
            ((a >> 5u64) & 1u64 == 1u64) == ((b >> 5u64) & 1u64 == 1u64),
            ((a >> 6u64) & 1u64 == 1u64) == ((b >> 6u64) & 1u64 == 1u64),
            ((a >> 7u64) & 1u64 == 1u64) == ((b >> 7u64) & 1u64 == 1u64),
            ((a >> 8u64) & 1u64 == 1u64) == ((b >> 8u64) & 1u64 == 1u64),
            ((a >> 9u64) & 1u64 == 1u64) == ((b >> 9u64) & 1u64 == 1u64),
            ((a >> 10u64) & 1u64 == 1u64) == ((b >> 10u64) & 1u64 == 1u64),
            ((a >> 11u64) & 1u64 == 1u64) == ((b >> 11u64) & 1u64 == 1u64),
            ((a >> 12u64) & 1u64 == 1u64) == ((b >> 12u64) & 1u64 == 1u64),
            ((a >> 13u64) & 1u64 == 1u64) == ((b >> 13u64) & 1u64 == 1u64),
            ((a >> 14u64) & 1u64 == 1u64) == ((b >> 14u64) & 1u64 == 1u64),
            ((a >> 15u64) & 1u64 == 1u64) == ((b >> 15u64) & 1u64 == 1u64),
            ((a >> 16u64) & 1u64 == 1u64) == ((b >> 16u64) & 1u64 == 1u64),
            ((a >> 17u64) & 1u64 == 1u64) == ((b >> 17u64) & 1u64 == 1u64),
            ((a >> 18u64) & 1u64 == 1u64) == ((b >> 18u64) & 1u64 == 1u64),
            ((a >> 19u64) & 1u64 == 1u64) == ((b >> 19u64) & 1u64 == 1u64),
            ((a >> 20u64) & 1u64 == 1u64) == ((b >> 20u64) & 1u64 == 1u64),
            ((a >> 21u64) & 1u64 == 1u64) == ((b >> 21u64) & 1u64 == 1u64),
            ((a >> 22u64) & 1u64 == 1u64) == ((b >> 22u64) & 1u64 == 1u64),
            ((a >> 23u64) & 1u64 == 1u64) == ((b >> 23u64) & 1u64 == 1u64),
            ((a >> 24u64) & 1u64 == 1u64) == ((b >> 24u64) & 1u64 == 1u64),
            ((a >> 25u64) & 1u64 == 1u64) == ((b >> 25u64) & 1u64 == 1u64),
            ((a >> 26u64) & 1u64 == 1u64) == ((b >> 26u64) & 1u64 == 1u64),
            ((a >> 27u64) & 1u64 == 1u64) == ((b >> 27u64) & 1u64 == 1u64),
            ((a >> 28u64) & 1u64 == 1u64) == ((b >> 28u64) & 1u64 == 1u64),
            ((a >> 29u64) & 1u64 == 1u64) == ((b >> 29u64) & 1u64 == 1u64),
            ((a >> 30u64) & 1u64 == 1u64) == ((b >> 30u64) & 1u64 == 1u64),
            ((a >> 31u64) & 1u64 == 1u64) == ((b >> 31u64) & 1u64 == 1u64),
            ((a >> 32u64) & 1u64 == 1u64) == ((b >> 32u64) & 1u64 == 1u64),
            ((a >> 33u64) & 1u64 == 1u64) == ((b >> 33u64) & 1u64 == 1u64),
            ((a >> 34u64) & 1u64 == 1u64) == ((b >> 34u64) & 1u64 == 1u64),
            ((a >> 35u64) & 1u64 == 1u64) == ((b >> 35u64) & 1u64 == 1u64),
            ((a >> 36u64) & 1u64 == 1u64) == ((b >> 36u64) & 1u64 == 1u64),
            ((a >> 37u64) & 1u64 == 1u64) == ((b >> 37u64) & 1u64 == 1u64),
            ((a >> 38u64) & 1u64 == 1u64) == ((b >> 38u64) & 1u64 == 1u64),
            ((a >> 39u64) & 1u64 == 1u64) == ((b >> 39u64) & 1u64 == 1u64),
            ((a >> 40u64) & 1u64 == 1u64) == ((b >> 40u64) & 1u64 == 1u64),
            ((a >> 41u64) & 1u64 == 1u64) == ((b >> 41u64) & 1u64 == 1u64),
            ((a >> 42u64) & 1u64 == 1u64) == ((b >> 42u64) & 1u64 == 1u64),
            ((a >> 43u64) & 1u64 == 1u64) == ((b >> 43u64) & 1u64 == 1u64),
            ((a >> 44u64) & 1u64 == 1u64) == ((b >> 44u64) & 1u64 == 1u64),
            ((a >> 45u64) & 1u64 == 1u64) == ((b >> 45u64) & 1u64 == 1u64),
            ((a >> 46u64) & 1u64 == 1u64) == ((b >> 46u64) & 1u64 == 1u64),
            ((a >> 47u64) & 1u64 == 1u64) == ((b >> 47u64) & 1u64 == 1u64),
            ((a >> 48u64) & 1u64 == 1u64) == ((b >> 48u64) & 1u64 == 1u64),
            ((a >> 49u64) & 1u64 == 1u64) == ((b >> 49u64) & 1u64 == 1u64),
            ((a >> 50u64) & 1u64 == 1u64) == ((b >> 50u64) & 1u64 == 1u64),
            ((a >> 51u64) & 1u64 == 1u64) == ((b >> 51u64) & 1u64 == 1u64),
            ((a >> 52u64) & 1u64 == 1u64) == ((b >> 52u64) & 1u64 == 1u64),
            ((a >> 53u64) & 1u64 == 1u64) == ((b >> 53u64) & 1u64 == 1u64),
            ((a >> 54u64) & 1u64 == 1u64) == ((b >> 54u64) & 1u64 == 1u64),
            ((a >> 55u64) & 1u64 == 1u64) == ((b >> 55u64) & 1u64 == 1u64),
            ((a >> 56u64) & 1u64 == 1u64) == ((b >> 56u64) & 1u64 == 1u64),
            ((a >> 57u64) & 1u64 == 1u64) == ((b >> 57u64) & 1u64 == 1u64),
            ((a >> 58u64) & 1u64 == 1u64) == ((b >> 58u64) & 1u64 == 1u64),
            ((a >> 59u64) & 1u64 == 1u64) == ((b >> 59u64) & 1u64 == 1u64),
            ((a >> 60u64) & 1u64 == 1u64) == ((b >> 60u64) & 1u64 == 1u64),
            ((a >> 61u64) & 1u64 == 1u64) == ((b >> 61u64) & 1u64 == 1u64),
            ((a >> 62u64) & 1u64 == 1u64) == ((b >> 62u64) & 1u64 == 1u64),
            ((a >> 63u64) & 1u64 == 1u64) == ((b >> 63u64) & 1u64 == 1u64),
    ;
}

proof fn lemma_high_bit_clear(a: u64, n: u8, t: u64)
    requires
        n < 64,
        n <= t < 64,
        a <= ((1u64 << n) - 1) as u64,
    ensures
        !u64_bit(a, t as int),
{
    assert(((a >> t) & 1u64) != 1u64) by (bit_vector)
        requires
            n < 64,
            n <= t < 64,
            a <= ((1u64 << n) - 1) as u64,
    ;
}

/// Two values of at most `n` bits with the same wire bits are equal.
pub proof fn lemma_value_bits_injective(n: u8, a: u64, b: u64)
    requires
        n <= 64,
        a <= unsigned_max(n),
        b <= unsigned_max(n),
        value_bits(n as nat, a) == value_bits(n as nat, b),
    ensures
        a == b,
{
    assert forall|t: int| 0 <= t < 64 implies #[trigger] u64_bit(a, t) == u64_bit(b, t) by {
        if t < n {
            let k = t / 8;
            let w = if n - 8 * k >= 8 {
                8
            } else {
                n - 8 * k
            };
            let i = 8 * k + (w - 1 - t % 8);
            assert(t == 8 * k + t % 8);
            assert(t % 8 < w);
            assert(0 <= w - 1 - t % 8 < 8);
            assert(i / 8 == k && i % 8 == w - 1 - t % 8);
            assert(0 <= i < n);
            assert(bit_position(n as nat, i) == t);
            assert(value_bits(n as nat, a)[i] == u64_bit(a, t));
            assert(value_bits(n as nat, b)[i] == u64_bit(b, t));
            assert(value_bits(n as nat, a)[i] == value_bits(n as nat, b)[i]);
        } else {
            lemma_high_bit_clear(a, n, t as u64);
            lemma_high_bit_clear(b, n, t as u64);
        }
    }
    assert(u64_bit(a, 0) == u64_bit(b, 0));
    assert(u64_bit(a, 1) == u64_bit(b, 1));
    assert(u64_bit(a, 2) == u64_bit(b, 2));
    assert(u64_bit(a, 3) == u64_bit(b, 3));
    assert(u64_bit(a, 4) == u64_bit(b, 4));
    assert(u64_bit(a, 5) == u64_bit(b, 5));
    assert(u64_bit(a, 6) == u64_bit(b, 6));
    assert(u64_bit(a, 7) == u64_bit(b, 7));
    assert(u64_bit(a, 8) == u64_bit(b, 8));
    assert(u64_bit(a, 9) == u64_bit(b, 9));
    assert(u64_bit(a, 10) == u64_bit(b, 10));
    assert(u64_bit(a, 11) == u64_bit(b, 11));
    assert(u64_bit(a, 12) == u64_bit(b, 12));
    assert(u64_bit(a, 13) == u64_bit(b, 13));
    assert(u64_bit(a, 14) == u64_bit(b, 14));
    assert(u64_bit(a, 15) == u64_bit(b, 15));
    assert(u64_bit(a, 16) == u64_bit(b, 16));
    assert(u64_bit(a, 17) == u64_bit(b, 17));
    assert(u64_bit(a, 18) == u64_bit(b, 18));
    assert(u64_bit(a, 19) == u64_bit(b, 19));
    assert(u64_bit(a, 20) == u64_bit(b, 20));
    assert(u64_bit(a, 21) == u64_bit(b, 21));
    assert(u64_bit(a, 22) == u64_bit(b, 22));
    assert(u64_bit(a, 23) == u64_bit(b, 23));
    assert(u64_bit(a, 24) == u64_bit(b, 24));
    assert(u64_bit(a, 25) == u64_bit(b, 25));
    assert(u64_bit(a, 26) == u64_bit(b, 26));
    assert(u64_bit(a, 27) == u64_bit(b, 27));
    assert(u64_bit(a, 28) == u64_bit(b, 28));
    assert(u64_bit(a, 29) == u64_bit(b, 29));
    assert(u64_bit(a, 30) == u64_bit(b, 30));
    assert(u64_bit(a, 31) == u64_bit(b, 31));
    assert(u64_bit(a, 32) == u64_bit(b, 32));
    assert(u64_bit(a, 33) == u64_bit(b, 33));
    assert(u64_bit(a, 34) == u64_bit(b, 34));
    assert(u64_bit(a, 35) == u64_bit(b, 35));
    assert(u64_bit(a, 36) == u64_bit(b, 36));
    assert(u64_bit(a, 37) == u64_bit(b, 37));
    assert(u64_bit(a, 38) == u64_bit(b, 38));
    assert(u64_bit(a, 39) == u64_bit(b, 39));
    assert(u64_bit(a, 40) == u64_bit(b, 40));
    assert(u64_bit(a, 41) == u64_bit(b, 41));
    assert(u64_bit(a, 42) == u64_bit(b, 42));
    assert(u64_bit(a, 43) == u64_bit(b, 43));
    assert(u64_bit(a, 44) == u64_bit(b, 44));
    assert(u64_bit(a, 45) == u64_bit(b, 45));
    assert(u64_bit(a, 46) == u64_bit(b, 46));
    assert(u64_bit(a, 47) == u64_bit(b, 47));
    assert(u64_bit(a, 48) == u64_bit(b, 48));
    assert(u64_bit(a, 49) == u64_bit(b, 49));
    assert(u64_bit(a, 50) == u64_bit(b, 50));
    assert(u64_bit(a, 51) == u64_bit(b, 51));
    assert(u64_bit(a, 52) == u64_bit(b, 52));
    assert(u64_bit(a, 53) == u64_bit(b, 53));
    assert(u64_bit(a, 54) == u64_bit(b, 54));
    assert(u64_bit(a, 55) == u64_bit(b, 55));
    assert(u64_bit(a, 56) == u64_bit(b, 56));
    assert(u64_bit(a, 57) == u64_bit(b, 57));
    assert(u64_bit(a, 58) == u64_bit(b, 58));
    assert(u64_bit(a, 59) == u64_bit(b, 59));
    assert(u64_bit(a, 60) == u64_bit(b, 60));
    assert(u64_bit(a, 61) == u64_bit(b, 61));
    assert(u64_bit(a, 62) == u64_bit(b, 62));
    assert(u64_bit(a, 63) == u64_bit(b, 63));
    lemma_u64_eq_from_bits(a, b);
}

/// A length prefix of `length_width(m)` bits holds every count up to `m`.
pub proof fn lemma_length_fits(m: u64)
    ensures
        length_width(m) <= 64,
        m <= unsigned_max(length_width(m) as u8),
{
    lemma_length_width_le_64(m);
    lemma_length_below_pow2(m);
    let n = length_width(m);
    if n < 64 {
        let n8 = n as u8;
        lemma_u64_pow2_no_overflow(n);
        lemma_u64_shl_is_mul(1u64, n8 as u64);
        assert((1u64 << n8) == (1u64 << (n8 as u64))) by (bit_vector)
            requires
                n8 < 64,
        ;
    }
}

proof fn lemma_length_below_pow2(m: u64)
    ensures
        m < pow2(length_width(m)),
    decreases m,
{
    if m == 0 {
        assert(pow2(0) == 1) by {
            reveal(pow);
        }
    } else {
        lemma_length_below_pow2(m / 2);
        lemma_pow2_unfold(length_width(m));
    }
}

proof fn lemma_zero_u64(t: u64)
    ensures
        ((0u64 >> t) & 1u64) != 1u64,
{
    assert(((0u64 >> t) & 1u64) != 1u64) by (bit_vector);
}

proof fn lemma_positions(n: nat, i: int, j: int)
    requires
        n <= 64,
        0 <= i < n,
        0 <= j < n,
    ensures
        0 <= bit_position(n, i) < n,
        i != j ==> bit_position(n, i) != bit_position(n, j),
{
    assert(i == 8 * (i / 8) + i % 8);
    assert(j == 8 * (j / 8) + j % 8);
}

proof fn lemma_sign_range_bv(r: u64, n: u8, sx: i64)
    requires
        1 <= n < 64,
        r <= ((1u64 << n) - 1) as u64,
        sx == if (r >> ((n - 1) as u64)) & 1u64 == 1u64 {
            (r | !(((1u64 << n) - 1) as u64)) as i64
        } else {
            r as i64
        },
    ensures
        -((1u64 << ((n - 1) as u8)) as i64) <= sx,
        sx <= ((1u64 << ((n - 1) as u8)) as i64) - 1,
{
    assert(-((1u64 << ((n - 1) as u8)) as i64) <= sx && sx <= ((1u64 << ((n - 1) as u8)) as i64)
        - 1) by (bit_vector)
        requires
            1 <= n < 64,
            r <= ((1u64 << n) - 1) as u64,
            sx == if (r >> ((n - 1) as u64)) & 1u64 == 1u64 {
                (r | !(((1u64 << n) - 1) as u64)) as i64
            } else {
                r as i64
            },
    ;
}

proof fn lemma_sign_bits_bv(r: u64, n: u8, sx: i64, t: u64)
    requires
        1 <= n <= 64,
        t < n,
        n == 64 || r <= ((1u64 << n) - 1) as u64,
        sx == if (r >> ((n - 1) as u64)) & 1u64 == 1u64 {
            (r | !(if n >= 64 { 0xffff_ffff_ffff_ffffu64 } else { ((1u64 << n) - 1) as u64 })) as i64
        } else {
            r as i64
        },
    ensures
        (((sx as u64) >> t) & 1u64 == 1u64) == ((r >> t) & 1u64 == 1u64),
{
    assert((((sx as u64) >> t) & 1u64 == 1u64) == ((r >> t) & 1u64 == 1u64)) by (bit_vector)
        requires
            1 <= n <= 64,
            t < n,
            n == 64 || r <= ((1u64 << n) - 1) as u64,
            sx == if (r >> ((n - 1) as u64)) & 1u64 == 1u64 {
                (r | !(if n >= 64 { 0xffff_ffff_ffff_ffffu64 } else { ((1u64 << n) - 1) as u64 })) as i64
            } else {
                r as i64
            },
    ;
}

/// Reads the `n`-bit value whose wire bits stand at `pos`.
pub fn read_value(bits: &Vec<bool>, pos: usize, n: u8) -> (r: u64)
    requires
        n <= 64,
        pos + n <= bits@.len(),
    ensures
        value_bits(n as nat, r) == bits@.subrange(pos as int, pos + n),
        r <= unsigned_max(n),
{
    let mut r: u64 = 0;
    let mut i: u8 = 0;
    proof {
        assert forall|t: u64| t < 64 implies ((0u64 >> t) & 1u64) != 1u64 by {
            lemma_zero_u64(t);
        }
    }
    while i < n
        invariant
            i <= n <= 64,
            pos + n <= bits@.len(),
            r <= unsigned_max(n),
            forall|j: int| 0 <= j < i ==> u64_bit(r, #[trigger] bit_position(n as nat, j)) == bits@[pos + j],
            forall|j: int| i <= j < n ==> !u64_bit(r, #[trigger] bit_position(n as nat, j)),
        decreases n - i,
    {
        let k: u8 = i / 8;
        let w: u8 = if n - 8 * k >= 8 {
            8
        } else {
            n - 8 * k
        };
        let shift: u8 = 8 * k + w - 1 - i % 8;
        proof {
            lemma_positions(n as nat, i as int, i as int);
            assert(shift as int == bit_position(n as nat, i as int));
        }
        let len = bits.len();
        assert(pos + i < len);
        if bits[pos + i as usize] {
            let ghost r0 = r;
            r = r | (1u64 << shift);
            proof {
                lemma_set_bit_u64(r0, shift as u64, 0, n as u64);
                assert forall|j: int| 0 <= j < n && j != i implies u64_bit(r, #[trigger] bit_position(n as nat, j))
                    == u64_bit(r0, bit_position(n as nat, j)) by {
                    lemma_positions(n as nat, i as int, j);
                    lemma_set_bit_u64(r0, shift as u64, bit_position(n as nat, j) as u64, n as u64);
                }
                lemma_set_bit_u64(r0, shift as u64, shift as u64, n as u64);
                if n == 64 {
                    assert(r <= unsigned_max(n));
                }
            }
        }
        i = i + 1;
    }
    proof {
        assert forall|j: int| 0 <= j < n implies value_bits(n as nat, r)[j] == bits@.subrange(
            pos as int,
            pos + n,
        )[j] by {
            assert(u64_bit(r, bit_position(n as nat, j)) == bits@[pos + j]);
        }
        assert(value_bits(n as nat, r) =~= bits@.subrange(pos as int, pos + n));
    }
    r
}

/// A padding primitive sends only zero bits.
proof fn lemma_void_bits(p: Primitive)
    requires
        p is Void,
        prim_width(p) <= 64,
    ensures
        forall|j: int| 0 <= j < prim_width(p) ==> !#[trigger] prim_bits(p)[j],
{
    assert forall|j: int| 0 <= j < prim_width(p) implies !#[trigger] prim_bits(p)[j] by {
        lemma_positions(prim_width(p), j, j);
        lemma_zero_u64(bit_position(prim_width(p), j) as u64);
    }
}

/// The bits of the first `j` fields begin the bits of all of them.
proof fn lemma_fields_bits_prefix(v: Seq<Field>, j: int)
    requires
        0 <= j <= v.len(),
    ensures
        fields_bits(v.subrange(0, j)).len() <= fields_bits(v).len(),
        fields_bits(v.subrange(0, j)) == fields_bits(v).subrange(0, fields_bits(v.subrange(0, j)).len() as int),
    decreases v.len(),
{
    if j == v.len() {
        assert(v.subrange(0, j) =~= v);
    } else {
        assert(v.drop_last().subrange(0, j) =~= v.subrange(0, j));
        lemma_fields_bits_prefix(v.drop_last(), j);
    }
}

/// `v` has the schema's shape and its bitstream begins the payload.
pub open spec fn encodes_prefix(v: Seq<Field>, schema: Seq<FieldSchema>, payload: Seq<u8>) -> bool {
    &&& conforms_all(v, schema)
    &&& fields_bits(v).len() <= 8 * payload.len()
    &&& fields_bits(v) == bytes_bits(payload).subrange(0, fields_bits(v).len() as int)
}

/// Where the bits of the first `i` fields of `v` agree with `out`, field `i`
/// is next.
proof fn lemma_next_at(v: Seq<Field>, bits: Seq<bool>, pos: int, i: int, out: Seq<Field>)
    requires
        at_pos(bits, pos, fields_bits(v)),
        0 <= i < v.len(),
        fields_bits(v.subrange(0, i)) == fields_bits(out),
    ensures
        at_pos(bits, pos + fields_bits(out).len(), field_bits(v[i])),
        fields_bits(v.subrange(0, i + 1)) == fields_bits(out) + field_bits(v[i]),
{
    lemma_fields_bits_prefix(v, i + 1);
    assert(v.subrange(0, i + 1).drop_last() =~= v.subrange(0, i));
    let p = pos + fields_bits(out).len();
    let fb = field_bits(v[i]);
    let all = fields_bits(v);
    assert(fields_bits(v.subrange(0, i + 1)) == fields_bits(out) + fb);
    assert(bits.subrange(p, p + fb.len()) =~= fb) by {
        assert forall|j: int| 0 <= j < fb.len() implies bits.subrange(p, p + fb.len())[j] == fb[j] by {
            assert(fields_bits(v.subrange(0, i + 1))[fields_bits(out).len() + j] == fb[j]);
            assert(all[fields_bits(out).len() + j] == bits.subrange(pos, pos + all.len())[fields_bits(out).len()
                + j]);
        }
    }
}

/// Reads one primitive of the template's kind, width and cast mode at `pos`.
pub fn decode_primitive(bits: &Vec<bool>, pos: usize, template: Primitive) -> (r: Result<Primitive, DecodeError>)
    requires
        prim_width(template) <= 64,
        pos + prim_width(template) <= bits@.len(),
    ensures
        r is Ok <==> !(template is Void) || forall|j: int|
            pos <= j < pos + prim_width(template) ==> !bits@[j],
        r is Err ==> r == Err::<Primitive, DecodeError>(DecodeError::NonZeroPadding),
        r is Ok ==> {
            &&& same_shape(r->Ok_0, template)
            &&& prim_width(r->Ok_0) == prim_width(template)
            &&& prim_bits(r->Ok_0) == bits@.subrange(pos as int, pos + prim_width(template))
        },
{
    match template {
        Primitive::Unsigned { bits: n, mode, .. } => {
            let v = read_value(bits, pos, n);
            Ok(Primitive::Unsigned { bits: n, mode, value: v })
        },
        Primitive::Signed { bits: n, mode, .. } => {
            let v = read_value(bits, pos, n);
            let sx: i64 = if n > 0 && (v >> (n - 1)) & 1u64 == 1u64 {
                let m: u64 = if n >= 64 {
                    u64::MAX
                } else {
                    assert(1u64 << n >= 1) by (bit_vector)
                        requires
                            n < 64,
                    ;
                    (1u64 << n) - 1
                };
                #[verifier::truncate]
                ((v | !m) as i64)
            } else {
                #[verifier::truncate]
                (v as i64)
            };
            proof {
                assert(sx == sign_extended(n, v));
                lemma_signed_reencode(n, mode, v);
            }
            Ok(Primitive::Signed { bits: n, mode, value: sx })
        },
        Primitive::Void { bits: n } => {
            let mut i: usize = 0;
            while i < n as usize
                invariant
                    i <= n,
                    template == (Primitive::Void { bits: n }),
                    pos + n <= bits@.len(),
                    forall|j: int| pos <= j < pos + i ==> !bits@[j],
                decreases n - i,
            {
                let len = bits.len();
                assert(pos + i < len);
                if bits[pos + i] {
                    assert(bits@[pos + i]);
                    assert(prim_width(template) == n as nat);
                    assert(!(forall|j: int| pos <= j < pos + prim_width(template) ==> !bits@[j]));
                    return Err(DecodeError::NonZeroPadding);
                }
                i = i + 1;
            }
            proof {
                assert(value_bits(n as nat, 0) =~= bits@.subrange(pos as int, pos + n)) by {
                    assert forall|j: int| 0 <= j < n implies !#[trigger] value_bits(n as nat, 0)[j] by {
                        let t = bit_position(n as nat, j);
                        lemma_positions(n as nat, j, j);
                        lemma_zero_u64(t as u64);
                    }
                }
            }
            Ok(Primitive::Void { bits: n })
        },
    }
}

/// The bits of a payload as a vector.
fn payload_bits(payload: &Vec<u8>) -> (r: Vec<bool>)
    ensures
        r@ == bytes_bits(payload@),
{
    let mut out: Vec<bool> = Vec::new();
    let mut i: usize = 0;
    while i < payload.len()
        invariant
            i <= payload@.len(),
            out@ == bytes_bits(payload@).subrange(0, 8 * i as int),
        decreases payload@.len() - i,
    {
        let b = payload[i];
        let mut k: u8 = 0;
        while k < 8
            invariant
                k <= 8,
                i < payload@.len(),
                b == payload@[i as int],
                out@ == bytes_bits(payload@).subrange(0, 8 * i + k),
            decreases 8 - k,
        {
            let bit = ((b >> (7 - k)) & 1u8) == 1u8;
            proof {
                let j = 8 * i + k;
                assert(j / 8 == i as int && j % 8 == k as int);
                assert(bit == bit_at(payload@, j));
            }
            out.push(bit);
            k = k + 1;
            assert(out@ =~= bytes_bits(payload@).subrange(0, 8 * i + k));
        }
        i = i + 1;
    }
    assert(bytes_bits(payload@).subrange(0, 8 * payload@.len() as int) =~= bytes_bits(payload@));
    out
}

/// Reads one field of `schema` at `pos`; the position after it comes back
/// with it. Whenever some value of that shape has its bits at `pos`, reading
/// succeeds and gives a value with the same bits.
pub fn decode_field(schema: &FieldSchema, bits: &Vec<bool>, pos: usize) -> (r: Result<(Field, usize), DecodeError>)
    requires
        schema_wf(*schema),
        pos <= bits@.len(),
    ensures
        r is Ok ==> {
            let (f, end) = r->Ok_0;
            &&& conforms(f, *schema)
            &&& end == pos + field_bits(f).len()
            &&& at_pos(bits@, pos as int, field_bits(f))
        },
        forall|f0: Field|
            conforms(f0, *schema) && #[trigger] at_pos(bits@, pos as int, field_bits(f0)) ==> r is Ok
                && field_bits(r->Ok_0.0) == field_bits(f0),
    decreases schema, 0nat,
{
    match schema {
        FieldSchema::Single(t) => {
            let t = *t;
            let w: usize = match t {
                Primitive::Unsigned { bits: n, .. } => n as usize,
                Primitive::Signed { bits: n, .. } => n as usize,
                Primitive::Void { bits: n } => n as usize,
            };
            proof {
                assert forall|f0: Field|
                    conforms(f0, *schema) && #[trigger] at_pos(bits@, pos as int, field_bits(f0)) implies ({
                    &&& f0 is Single
                    &&& pos + w <= bits@.len()
                    &&& bits@.subrange(pos as int, pos + w) == prim_bits(f0->Single_0)
                    &&& forall|j: int| pos <= j < pos + w ==> !(t is Void) || !bits@[j]
                }) by {
                    let q = f0->Single_0;
                    if t is Void {
                        lemma_void_bits(q);
                    }
                    assert forall|j: int| pos <= j < pos + w implies !(t is Void) || !bits@[j] by {
                        assert(bits@[j] == bits@.subrange(pos as int, pos + w)[j - pos]);
                    }
                }
            }
            if w > bits.len() - pos {
                return Err(DecodeError::NotEnoughBits);
            }
            let p = match decode_primitive(bits, pos, t) {
                Ok(p) => p,
                Err(e) => {
                    return Err(e);
                },
            };
            Ok((Field::Single(p), pos + w))
        },
        FieldSchema::Composite(ss) => {
            proof {
                assert(decreases_to!(*schema => (*schema)->Composite_0));
                assert forall|f0: Field|
                    conforms(f0, *schema) && #[trigger] at_pos(bits@, pos as int, field_bits(f0)) implies ({
                    &&& f0 is Composite
                    &&& conforms_all(f0->Composite_0@, ss@)
                    &&& at_pos(bits@, pos as int, fields_bits(f0->Composite_0@))
                }) by {
                }
            }
            let (v, end) = match decode_list(ss, bits, pos) {
                Ok(x) => x,
                Err(e) => {
                    return Err(e);
                },
            };
            Ok((Field::Composite(v), end))
        },
        FieldSchema::FixedArray { element, len } => {
            proof {
                assert(decreases_to!(*schema => (*schema)->FixedArray_element));
                assert forall|f0: Field|
                    conforms(f0, *schema) && #[trigger] at_pos(bits@, pos as int, field_bits(f0)) implies ({
                    let items = f0->FixedArray_0@;
                    &&& f0 is FixedArray
                    &&& items.len() == *len
                    &&& forall|i: int| 0 <= i < items.len() ==> conforms(#[trigger] items[i], **element)
                    &&& at_pos(bits@, pos as int, fields_bits(items))
                }) by {
                }
            }
            let (items, end) = match decode_items(element, *len, bits, pos) {
                Ok(x) => x,
                Err(e) => {
                    return Err(e);
                },
            };
            Ok((Field::FixedArray(items), end))
        },
        FieldSchema::DynamicArray { element, max_len } => {
            let max_len = *max_len;
            let lw = length_prefix_width(max_len);
            proof {
                assert(decreases_to!(*schema => (*schema)->DynamicArray_element));
                lemma_length_width_le_64(max_len);
                lemma_length_fits(max_len);
                assert forall|f0: Field|
                    conforms(f0, *schema) && #[trigger] at_pos(bits@, pos as int, field_bits(f0)) implies ({
                    let items = f0->DynamicArray_items@;
                    &&& f0 is DynamicArray
                    &&& items.len() <= max_len
                    &&& forall|i: int| 0 <= i < items.len() ==> conforms(#[trigger] items[i], **element)
                    &&& pos + lw <= bits@.len()
                    &&& bits@.subrange(pos as int, pos + lw) == value_bits(lw as nat, items.len() as u64)
                    &&& at_pos(bits@, pos + lw, fields_bits(items))
                }) by {
                    let items = f0->DynamicArray_items@;
                    let fb = field_bits(f0);
                    let seg = bits@.subrange(pos as int, pos + fb.len());
                    let m = fields_bits(items).len();
                    assert(bits@.subrange(pos as int, pos + lw) =~= seg.subrange(0, lw as int));
                    assert(fb.subrange(0, lw as int) =~= value_bits(lw as nat, items.len() as u64));
                    assert(bits@.subrange(pos + lw, pos + lw + m) =~= seg.subrange(lw as int, lw + m));
                    assert(fb.subrange(lw as int, lw + m) =~= fields_bits(items));
                }
            }
            if lw as usize > bits.len() - pos {
                return Err(DecodeError::NotEnoughBits);
            }
            let count = read_value(bits, pos, lw);
            proof {
                assert forall|f0: Field|
                    conforms(f0, *schema) && #[trigger] at_pos(bits@, pos as int, field_bits(f0)) implies count
                    == f0->DynamicArray_items@.len() by {
                    lemma_value_bits_injective(lw, count, f0->DynamicArray_items@.len() as u64);
                }
            }
            if count > max_len {
                return Err(DecodeError::LengthOutOfRange);
            }
            let (items, end) = match decode_items(element, count, bits, pos + lw as usize) {
                Ok(x) => x,
                Err(e) => {
                    proof {
                        assert forall|f0: Field|
                            conforms(f0, *schema) && #[trigger] at_pos(bits@, pos as int, field_bits(f0)) implies false by {
                            assert(at_pos(bits@, pos + lw, fields_bits(f0->DynamicArray_items@)));
                        }
                    }
                    return Err(e);
                },
            };
            let f = Field::DynamicArray { max_len, items };
            proof {
                assert(field_bits(f) == bits@.subrange(pos as int, pos + lw) + bits@.subrange(
                    pos + lw,
                    end as int,
                ));
                assert(bits@.subrange(pos as int, pos + lw) + bits@.subrange(pos + lw, end as int)
                    =~= bits@.subrange(pos as int, end as int));
                assert forall|f0: Field|
                    conforms(f0, *schema) && #[trigger] at_pos(bits@, pos as int, field_bits(f0)) implies field_bits(
                    f,
                ) == field_bits(f0) by {
                    assert(at_pos(bits@, pos + lw, fields_bits(f0->DynamicArray_items@)));
                }
            }
            Ok((f, end))
        },
    }
}

/// Reads fields of `schemas` in order from `pos` on.
pub fn decode_list(schemas: &Vec<FieldSchema>, bits: &Vec<bool>, pos: usize) -> (r: Result<
    (Vec<Field>, usize),
    DecodeError,
>)
    requires
        forall|i: int| 0 <= i < schemas@.len() ==> schema_wf(#[trigger] schemas@[i]),
        pos <= bits@.len(),
    ensures
        r is Ok ==> {
            let (v, end) = r->Ok_0;
            &&& conforms_all(v@, schemas@)
            &&& end == pos + fields_bits(v@).len()
            &&& at_pos(bits@, pos as int, fields_bits(v@))
        },
        forall|v0: Seq<Field>|
            conforms_all(v0, schemas@) && #[trigger] at_pos(bits@, pos as int, fields_bits(v0)) ==> r is Ok
                && fields_bits(r->Ok_0.0@) == fields_bits(v0),
    decreases schemas, 1nat,
{
    let mut out: Vec<Field> = Vec::new();
    let mut p: usize = pos;
    assert(bits@.subrange(pos as int, pos as int) =~= fields_bits(out@));
    let mut i: usize = 0;
    while i < schemas.len()
        invariant
            i <= schemas@.len(),
            forall|k: int| 0 <= k < schemas@.len() ==> schema_wf(#[trigger] schemas@[k]),
            pos <= p <= bits@.len(),
            out@.len() == i,
            forall|k: int| 0 <= k < i ==> conforms(#[trigger] out@[k], schemas@[k]),
            p == pos + fields_bits(out@).len(),
            at_pos(bits@, pos as int, fields_bits(out@)),
            forall|v0: Seq<Field>|
                conforms_all(v0, schemas@) && #[trigger] at_pos(bits@, pos as int, fields_bits(v0))
                    ==> fields_bits(v0.subrange(0, i as int)) == fields_bits(out@),
        decreases schemas@.len() - i,
    {
        proof {
            assert(decreases_to!(*schemas => schemas@));
            assert(decreases_to!(schemas@ => schemas@[i as int]));
        }
        let ghost before = out@;
        let (f, end) = match decode_field(&schemas[i], bits, p) {
            Ok(x) => x,
            Err(e) => {
                proof {
                    assert forall|v0: Seq<Field>|
                        conforms_all(v0, schemas@) && #[trigger] at_pos(bits@, pos as int, fields_bits(v0)) implies false by {
                        lemma_next_at(v0, bits@, pos as int, i as int, before);
                    }
                }
                return Err(e);
            },
        };
        out.push(f);
        proof {
            assert(out@.drop_last() =~= before);
            assert(bits@.subrange(pos as int, p as int) + bits@.subrange(p as int, end as int) =~= bits@.subrange(
                pos as int,
                end as int,
            ));
            assert forall|v0: Seq<Field>|
                conforms_all(v0, schemas@) && #[trigger] at_pos(bits@, pos as int, fields_bits(v0)) implies fields_bits(
                v0.subrange(0, i + 1),
            ) == fields_bits(out@) by {
                lemma_next_at(v0, bits@, pos as int, i as int, before);
            }
        }
        p = end;
        i = i + 1;
    }
    proof {
        assert forall|v0: Seq<Field>|
            conforms_all(v0, schemas@) && #[trigger] at_pos(bits@, pos as int, fields_bits(v0)) implies fields_bits(
            out@,
        ) == fields_bits(v0) by {
            assert(v0.subrange(0, v0.len() as int) =~= v0);
        }
    }
    Ok((out, p))
}

/// Reads `count` fields of one schema from `pos` on.
pub fn decode_items(element: &FieldSchema, count: u64, bits: &Vec<bool>, pos: usize) -> (r: Result<
    (Vec<Field>, usize),
    DecodeError,
>)
    requires
        schema_wf(*element),
        pos <= bits@.len(),
    ensures
        r is Ok ==> {
            let (v, end) = r->Ok_0;
            &&& v@.len() == count
            &&& forall|i: int| 0 <= i < v@.len() ==> conforms(#[trigger] v@[i], *element)
            &&& end == pos + fields_bits(v@).len()
            &&& at_pos(bits@, pos as int, fields_bits(v@))
        },
        forall|v0: Seq<Field>|
            v0.len() == count && (forall|i: int| 0 <= i < v0.len() ==> conforms(#[trigger] v0[i], *element))
                && #[trigger] at_pos(bits@, pos as int, fields_bits(v0)) ==> r is Ok && fields_bits(
                r->Ok_0.0@,
            ) == fields_bits(v0),
    decreases element, 1nat,
{
    let mut out: Vec<Field> = Vec::new();
    let mut p: usize = pos;
    assert(bits@.subrange(pos as int, pos as int) =~= fields_bits(out@));
    let mut k: u64 = 0;
    while k < count
        invariant
            k <= count,
            schema_wf(*element),
            pos <= p <= bits@.len(),
            out@.len() == k,
            forall|i: int| 0 <= i < out@.len() ==> conforms(#[trigger] out@[i], *element),
            p == pos + fields_bits(out@).len(),
            at_pos(bits@, pos as int, fields_bits(out@)),
            forall|v0: Seq<Field>|
                v0.len() == count && (forall|i: int| 0 <= i < v0.len() ==> conforms(#[trigger] v0[i], *element))
                    && #[trigger] at_pos(bits@, pos as int, fields_bits(v0)) ==> fields_bits(
                    v0.subrange(0, k as int),
                ) == fields_bits(out@),
        decreases count - k,
    {
        let ghost before = out@;
        let (f, end) = match decode_field(element, bits, p) {
            Ok(x) => x,
            Err(e) => {
                proof {
                    assert forall|v0: Seq<Field>|
                        v0.len() == count && (forall|i: int| 0 <= i < v0.len() ==> conforms(#[trigger] v0[i], *element))
                            && #[trigger] at_pos(bits@, pos as int, fields_bits(v0)) implies false by {
                        lemma_next_at(v0, bits@, pos as int, k as int, before);
                        assert(conforms(v0[k as int], *element));
                    }
                }
                return Err(e);
            },
        };
        out.push(f);
        proof {
            assert(out@.drop_last() =~= before);
            assert(bits@.subrange(pos as int, p as int) + bits@.subrange(p as int, end as int) =~= bits@.subrange(
                pos as int,
                end as int,
            ));
            assert forall|v0: Seq<Field>|
                v0.len() == count && (forall|i: int| 0 <= i < v0.len() ==> conforms(#[trigger] v0[i], *element))
                    && #[trigger] at_pos(bits@, pos as int, fields_bits(v0)) implies fields_bits(
                v0.subrange(0, k + 1),
            ) == fields_bits(out@) by {
                lemma_next_at(v0, bits@, pos as int, k as int, before);
                assert(conforms(v0[k as int], *element));
            }
        }
        p = end;
        k = k + 1;
    }
    proof {
        assert forall|v0: Seq<Field>|
            v0.len() == count && (forall|i: int| 0 <= i < v0.len() ==> conforms(#[trigger] v0[i], *element))
                && #[trigger] at_pos(bits@, pos as int, fields_bits(v0)) implies fields_bits(out@) == fields_bits(
            v0,
        ) by {
            assert(v0.subrange(0, v0.len() as int) =~= v0);
        }
    }
    Ok((out, p))
}

/// Reads a structured value of `schema` from the start of `payload`. A value
/// that comes back has the schema's shape and its bitstream begins the payload;
/// whenever some value of that shape has its bitstream at the start of the
/// payload, decoding succeeds and gives a value with the same bitstream.
pub fn decode_fields(schema: &Vec<FieldSchema>, payload: &Vec<u8>) -> (r: Result<Vec<Field>, DecodeError>)
    requires
        forall|i: int| 0 <= i < schema@.len() ==> schema_wf(#[trigger] schema@[i]),
    ensures
        r is Ok ==> encodes_prefix(r->Ok_0@, schema@, payload@),
        forall|v: Seq<Field>| #[trigger]
            encodes_prefix(v, schema@, payload@) ==> r is Ok && fields_bits(r->Ok_0@) == fields_bits(v),
{
    let bits = payload_bits(payload);
    proof {
        assert forall|v: Seq<Field>| #[trigger] encodes_prefix(v, schema@, payload@) implies at_pos(
            bits@,
            0,
            fields_bits(v),
        ) by {
        }
    }
    match decode_list(schema, &bits, 0) {
        Ok((v, _)) => Ok(v),
        Err(e) => Err(e),
    }
}

} // verus!
