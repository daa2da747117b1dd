use vstd::prelude::*;
use vstd::arithmetic::power::pow;
use vstd::arithmetic::power2::{pow2, lemma2_to64, lemma_pow2_unfold};

verus! {

/// Policy that maps a value into a field of fixed width.
#[derive(Clone, Copy, Debug, PartialEq, Eq, Structural)]
pub enum CastMode {
    /// Out-of-range values clamp to the nearest representable bound.
    Saturated,
    /// Values wrap modulo 2^width.
    Truncated,
}

/// A leaf field: its width in bits (at most 64), cast mode and value.
#[derive(Clone, Copy, Debug, PartialEq, Eq, Structural)]
pub enum Primitive {
    Unsigned { bits: u8, mode: CastMode, value: u64 },
    Signed { bits: u8, mode: CastMode, value: i64 },
    /// Padding: `bits` zero bits.
    Void { bits: u8 },
}

/// A field of a structured value.
#[derive(Debug, PartialEq, Eq)]
pub enum Field {
    Single(Primitive),
    /// A nested structured value: its fields in declared order.
    Composite(Vec<Field>),
    /// An array whose length is fixed by the schema: no length prefix.
    FixedArray(Vec<Field>),
    /// An array of at most `max_len` elements, preceded by its length.
    DynamicArray { max_len: u64, items: Vec<Field> },
}

pub open spec fn prim_width(p: Primitive) -> nat {
    match p {
        Primitive::Unsigned { bits, .. } => bits as nat,
        Primitive::Signed { bits, .. } => bits as nat,
        Primitive::Void { bits } => bits as nat,
    }
}

pub open spec fn prim_wf(p: Primitive) -> bool {
    prim_width(p) <= 64
}

pub open spec fn field_wf(f: Field) -> bool
    decreases f,
{
    match f {
        Field::Single(p) => prim_wf(p),
        Field::Composite(v) => forall|i: int| 0 <= i < v@.len() ==> field_wf(#[trigger] v@[i]),
        Field::FixedArray(v) => forall|i: int| 0 <= i < v@.len() ==> field_wf(#[trigger] v@[i]),
        Field::DynamicArray { max_len, items } => items@.len() <= max_len && forall|i: int|
            0 <= i < items@.len() ==> field_wf(#[trigger] items@[i]),
    }
}

pub open spec fn fields_wf(fs: Seq<Field>) -> bool {
    forall|i: int| 0 <= i < fs.len() ==> field_wf(#[trigger] fs[i])
}

/// Largest unsigned value of `n` bits.
pub open spec fn unsigned_max(n: u8) -> u64 {
    if n >= 64 {
        u64::MAX
    } else {
        ((1u64 << n) - 1) as u64
    }
}

/// `v` clamped into the signed range of `n` bits, `-2^(n-1) ..= 2^(n-1)-1`.
pub open spec fn signed_saturate(n: u8, v: i64) -> i64 {
    if n == 0 || n >= 64 {
        v
    } else {
        let h = (1u64 << ((n - 1) as u8)) as int;
        if v > h - 1 {
            (h - 1) as i64
        } else if v < -h {
            (-h) as i64
        } else {
            v
        }
    }
}

/// The bit pattern a primitive contributes: only its low `width` bits are sent,
/// so truncation is the pattern itself.
pub open spec fn prim_raw(p: Primitive) -> u64 {
    match p {
        Primitive::Unsigned { bits, mode, value } => match mode {
            CastMode::Saturated => if value > unsigned_max(bits) {
                unsigned_max(bits)
            } else {
                value
            },
            CastMode::Truncated => value,
        },
        Primitive::Signed { bits, mode, value } => match mode {
            CastMode::Saturated => signed_saturate(bits, value) as u64,
            CastMode::Truncated => value as u64,
        },
        Primitive::Void { .. } => 0,
    }
}

/// The `n` low bits of `v` on the wire: bytes least significant first, each
/// most significant bit first; a last partial byte sends its own low bits.
pub open spec fn value_bits(n: nat, v: u64) -> Seq<bool> {
    Seq::new(
        n,
        |i: int|
            {
                let k = i / 8;
                let w = if n - 8 * k >= 8 {
                    8
                } else {
                    n - 8 * k
                };
                ((v >> ((8 * k + w - 1 - i % 8) as u64)) & 1u64) == 1u64
            },
    )
}

pub open spec fn prim_bits(p: Primitive) -> Seq<bool> {
    value_bits(prim_width(p), prim_raw(p))
}

/// Number of bits that represent every count in `0..=m`.
pub open spec fn length_width(m: u64) -> nat
    decreases m,
{
    if m == 0 {
        0
    } else {
        1 + length_width(m / 2)
    }
}

pub open spec fn field_bits(f: Field) -> Seq<bool>
    decreases f,
{
    match f {
        Field::Single(p) => prim_bits(p),
        Field::Composite(v) => fields_bits(v@),
        Field::FixedArray(v) => fields_bits(v@),
        Field::DynamicArray { max_len, items } => value_bits(length_width(max_len), items@.len() as u64)
            + fields_bits(items@),
    }
}

/// The flattened bitstream of a structured value: its fields in declared
/// order, nested values and array elements in place.
pub open spec fn fields_bits(fs: Seq<Field>) -> Seq<bool>
    decreases fs,
{
    if fs.len() == 0 {
        Seq::empty()
    } else {
        fields_bits(fs.drop_last()) + field_bits(fs.last())
    }
}

pub proof fn lemma_length_width_le_64(m: u64)
    ensures
        length_width(m) <= 64,
{
    lemma2_to64();
    lemma_length_width_bound(m, 64);
}

proof fn lemma_length_width_bound(m: u64, k: nat)
    requires
        m < pow2(k),
    ensures
        length_width(m) <= k,
    decreases m,
{
    if m > 0 {
        if k == 0 {
            assert(pow2(0) == 1) by {
                reveal(pow);
            }
        } else {
            lemma_pow2_unfold(k);
            lemma_length_width_bound(m / 2, (k - 1) as nat);
        }
    }
}

/// Appends the `n` low bits of `v` in wire order.
pub fn push_value_bits(out: &mut Vec<bool>, n: u8, v: u64)
    requires
        n <= 64,
    ensures
        final(out)@ == old(out)@ + value_bits(n as nat, v),
{
    let ghost start = old(out)@;
    let mut i: u8 = 0;
    while i < n
        invariant
            i <= n <= 64,
            out@ == start + value_bits(n as nat, v).subrange(0, i as int),
        decreases n - i,
    {
        let k: u8 = i / 8;
        let w: u8 = if n - 8 * k >= 8 {
            8
        } else {
            n - 8 * k
        };
        let shift: u8 = 8 * k + w - 1 - i % 8;
        let b = ((v >> shift) & 1u64) == 1u64;
        out.push(b);
        proof {
            assert(value_bits(n as nat, v)[i as int] == b);
            assert(out@ =~= start + value_bits(n as nat, v).subrange(0, i + 1));
        }
        i = i + 1;
    }
    assert(value_bits(n as nat, v).subrange(0, n as int) =~= value_bits(n as nat, v));
}

/// The number of bits of a length prefix for arrays of at most `m` elements.
pub fn length_prefix_width(m: u64) -> (r: u8)
    ensures
        r == length_width(m),
{
    proof {
        lemma_length_width_le_64(m);
    }
    let mut n: u8 = 0;
    let mut rest: u64 = m;
    while rest > 0
        invariant
            length_width(m) == n + length_width(rest),
            length_width(m) <= 64,
        decreases rest,
    {
        rest = rest / 2;
        n = n + 1;
    }
    n
}

/// The bit pattern a primitive contributes, cast mode applied.
pub fn raw_value(p: Primitive) -> (r: u64)
    ensures
        r == prim_raw(p),
{
    match p {
        Primitive::Unsigned { bits, mode, value } => match mode {
            CastMode::Saturated => {
                let max = if bits >= 64 {
                    u64::MAX
                } else {
                    assert(1u64 << bits >= 1) by (bit_vector)
                        requires
                            bits < 64,
                    ;
                    (1u64 << bits) - 1
                };
                if value > max {
                    max
                } else {
                    value
                }
            },
            CastMode::Truncated => value,
        },
        Primitive::Signed { bits, mode, value } => match mode {
            CastMode::Saturated => {
                if bits == 0 || bits >= 64 {
                    #[verifier::truncate]
                    (value as u64)
                } else {
                    let h: u64 = 1u64 << (bits - 1);
                    let h_int: i128 = h as i128;
                    let v_int: i128 = value as i128;
                    let clamped: i64 = if v_int > h_int - 1 {
                        (h_int - 1) as i64
                    } else if v_int < -h_int {
                        (-h_int) as i64
                    } else {
                        value
                    };
                    #[verifier::truncate]
                    (clamped as u64)
                }
            },
            CastMode::Truncated => {
                #[verifier::truncate]
                (value as u64)
            },
        },
        Primitive::Void { .. } => 0,
    }
}

/// Appends the bits of one primitive.
pub fn push_primitive(out: &mut Vec<bool>, p: Primitive)
    requires
        prim_wf(p),
    ensures
        final(out)@ == old(out)@ + prim_bits(p),
{
    let raw = raw_value(p);
    let n = match p {
        Primitive::Unsigned { bits, .. } => bits,
        Primitive::Signed { bits, .. } => bits,
        Primitive::Void { bits } => bits,
    };
    push_value_bits(out, n, raw);
}

/// Appends the bits of one field.
pub fn push_field(out: &mut Vec<bool>, f: &Field)
    requires
        field_wf(*f),
    ensures
        final(out)@ == old(out)@ + field_bits(*f),
    decreases f, 0nat,
{
    match f {
        Field::Single(p) => push_primitive(out, *p),
        Field::Composite(v) => {
            proof {
                assert(decreases_to!(*f => (*f)->Composite_0));
            }
            push_fields(out, v);
        },
        Field::FixedArray(v) => {
            proof {
                assert(decreases_to!(*f => (*f)->FixedArray_0));
            }
            push_fields(out, v);
        },
        Field::DynamicArray { max_len, items } => {
            let w = length_prefix_width(*max_len);
            proof {
                lemma_length_width_le_64(*max_len);
                assert(decreases_to!(*f => (*f)->DynamicArray_items));
            }
            push_value_bits(out, w, items.len() as u64);
            push_fields(out, items);
        },
    }
}

/// Appends the bits of fields in order.
pub fn push_fields(out: &mut Vec<bool>, fields: &Vec<Field>)
    requires
        fields_wf(fields@),
    ensures
        final(out)@ == old(out)@ + fields_bits(fields@),
    decreases fields, 1nat,
{
    let ghost start = old(out)@;
    let mut i: usize = 0;
    while i < fields.len()
        invariant
            i <= fields@.len(),
            fields_wf(fields@),
            out@ == start + fields_bits(fields@.subrange(0, i as int)),
        decreases fields@.len() - i,
    {
        proof {
            assert(decreases_to!(*fields => fields@));
            assert(decreases_to!(fields@ => fields@[i as int]));
        }
        push_field(out, &fields[i]);
        assert(fields@.subrange(0, i + 1).drop_last() =~= fields@.subrange(0, i as int));
        assert(out@ =~= start + fields_bits(fields@.subrange(0, i + 1)));
        i = i + 1;
    }
    assert(fields@.subrange(0, fields@.len() as int) =~= fields@);
}

/// Flattens a structured value into its bitstream.
pub fn flatten(fields: &Vec<Field>) -> (r: Vec<bool>)
    requires
        fields_wf(fields@),
    ensures
        r@ == fields_bits(fields@),
{
    let mut out: Vec<bool> = Vec::new();
    push_fields(&mut out, fields);
    assert(out@ =~= fields_bits(fields@));
    out
}

} // verus!
