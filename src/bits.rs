use vstd::prelude::*;

verus! {

/// Bit `k` (0 is the most significant) of a byte.
pub open spec fn bit_of(b: u8, k: int) -> bool {
    ((b >> ((7 - k) as u8)) & 1u8) == 1u8
}

/// Bit `i` of a byte sequence, bytes in order and each most significant bit first.
pub open spec fn bit_at(s: Seq<u8>, i: int) -> bool {
    bit_of(s[i / 8], i % 8)
}

/// All bits of a byte sequence.
pub open spec fn bytes_bits(s: Seq<u8>) -> Seq<bool> {
    Seq::new(8 * s.len(), |i: int| bit_at(s, i))
}

/// A byte with bit `k` set to `v`.
pub open spec fn with_bit(b: u8, k: u8, v: bool) -> u8 {
    if v {
        b | (0x80u8 >> k)
    } else {
        b & !(0x80u8 >> k)
    }
}

proof fn lemma_with_bit_bv(b: u8, k: u8, m: u8)
    requires
        k < 8,
        m < 8,
    ensures
        ((b | (0x80u8 >> k)) >> (7 - m) as u8) & 1u8 == 1u8 <==> (m == k || (b >> (7 - m) as u8)
            & 1u8 == 1u8),
        ((b & !(0x80u8 >> k)) >> (7 - m) as u8) & 1u8 == 1u8 <==> (m != k && (b >> (7 - m) as u8)
            & 1u8 == 1u8),
{
    assert(((b | (0x80u8 >> k)) >> (7 - m) as u8) & 1u8 == 1u8 <==> (m == k || (b >> (7 - m) as u8)
        & 1u8 == 1u8)) by (bit_vector)
        requires
            k < 8,
            m < 8,
    ;
    assert(((b & !(0x80u8 >> k)) >> (7 - m) as u8) & 1u8 == 1u8 <==> (m != k && (b >> (7 - m) as u8)
        & 1u8 == 1u8)) by (bit_vector)
        requires
            k < 8,
            m < 8,
    ;
}

/// Setting one bit of a byte leaves the seven others as they were.
pub proof fn lemma_with_bit(b: u8, k: u8, v: bool)
    requires
        k < 8,
    ensures
        forall|m: int| 0 <= m < 8 ==> #[trigger] bit_of(with_bit(b, k, v), m) == if m == k {
            v
        } else {
            bit_of(b, m)
        },
{
    assert forall|m: int| 0 <= m < 8 implies #[trigger] bit_of(with_bit(b, k, v), m) == if m == k {
        v
    } else {
        bit_of(b, m)
    } by {
        lemma_with_bit_bv(b, k, m as u8);
    }
}

/// A zero byte has no bit set.
pub proof fn lemma_zero_byte()
    ensures
        forall|m: int| 0 <= m < 8 ==> !#[trigger] bit_of(0u8, m),
{
    assert forall|m: int| 0 <= m < 8 implies !#[trigger] bit_of(0u8, m) by {
        let k = (7 - m) as u8;
        assert((0u8 >> k) & 1u8 == 0u8) by (bit_vector);
    }
}

/// The first `n` bytes of a region whose bits past `cursor` are clear hold the
/// first `cursor` bits followed by zeros.
pub proof fn lemma_prefix_bytes(data: Seq<u8>, cursor: nat, n: nat)
    requires
        cursor <= 8 * n,
        n <= data.len(),
        forall|i: int| cursor <= i < 8 * data.len() ==> !#[trigger] bit_at(data, i),
    ensures
        bytes_bits(data.subrange(0, n as int)) == bytes_bits(data).subrange(0, cursor as int)
            + Seq::new((8 * n - cursor) as nat, |i: int| false),
{
    let lhs = bytes_bits(data.subrange(0, n as int));
    let rhs = bytes_bits(data).subrange(0, cursor as int) + Seq::new(
        (8 * n - cursor) as nat,
        |i: int| false,
    );
    assert forall|i: int| 0 <= i < 8 * n implies lhs[i] == rhs[i] by {
        assert(i / 8 < n);
        assert(data.subrange(0, n as int)[i / 8] == data[i / 8]);
        assert(lhs[i] == bit_at(data, i));
        if i >= cursor {
            assert(!bit_at(data, i));
        }
    }
    assert(lhs =~= rhs);
}

/// Bits of a concatenation are the concatenation of bits.
pub proof fn lemma_bytes_bits_concat(a: Seq<u8>, b: Seq<u8>)
    ensures
        bytes_bits(a + b) == bytes_bits(a) + bytes_bits(b),
{
    let lhs = bytes_bits(a + b);
    let rhs = bytes_bits(a) + bytes_bits(b);
    assert forall|i: int| 0 <= i < 8 * (a.len() + b.len()) implies lhs[i] == rhs[i] by {
        if i < 8 * a.len() {
            assert(i / 8 < a.len());
        } else {
            let j = i - 8 * a.len();
            assert(i / 8 == j / 8 + a.len());
            assert(i % 8 == j % 8);
        }
    }
    assert(lhs =~= rhs);
}

/// Written when a bit would go past the end of a buffer.
#[derive(Clone, Copy, Debug, PartialEq, Eq, Structural)]
pub struct BufferExhausted;

/// A byte region of fixed length with a cursor counting the bits written so far.
pub struct BitBuffer {
    pub data: Vec<u8>,
    pub cursor: usize,
}

impl BitBuffer {
    pub open spec fn wf(&self) -> bool {
        self.cursor <= 8 * self.data@.len()
    }

    /// Number of bits the region holds.
    pub open spec fn capacity(&self) -> nat {
        8 * self.data@.len()
    }

    /// The bits written so far.
    pub open spec fn view(&self) -> Seq<bool> {
        bytes_bits(self.data@).subrange(0, self.cursor as int)
    }

    /// A zeroed region of `length` bytes with the cursor at its start.
    pub fn with_length(length: usize) -> (r: BitBuffer)
        requires
            8 * length <= usize::MAX,
        ensures
            r.wf(),
            r.data@.len() == length,
            r.cursor == 0,
            forall|i: int| 0 <= i < length ==> r.data@[i] == 0,
            forall|i: int| 0 <= i < 8 * length ==> !#[trigger] bit_at(r.data@, i),
    {
        let mut data: Vec<u8> = Vec::new();
        let mut i: usize = 0;
        while i < length
            invariant
                i <= length,
                data@.len() == i,
                forall|k: int| 0 <= k < i ==> data@[k] == 0,
            decreases length - i,
        {
            data.push(0u8);
            i = i + 1;
        }
        proof {
            lemma_zero_byte();
            assert forall|i: int| 0 <= i < 8 * length implies !#[trigger] bit_at(data@, i) by {
                assert(data@[i / 8] == 0);
            }
        }
        BitBuffer { data, cursor: 0 }
    }

    /// Number of bits written.
    pub fn bit_length(&self) -> (r: usize)
        ensures
            r == self.cursor,
    {
        self.cursor
    }

    /// Number of bits that can still be written.
    pub fn remaining(&self) -> (r: usize)
        requires
            self.wf(),
            8 * self.data@.len() <= usize::MAX,
        ensures
            r == self.capacity() - self.cursor,
    {
        8 * self.data.len() - self.cursor
    }

    /// Writes one bit at the cursor and advances it; fails when the region is full.
    pub fn push_bit(&mut self, v: bool) -> (r: Result<(), BufferExhausted>)
        requires
            old(self).wf(),
            8 * old(self).data@.len() <= usize::MAX,
        ensures
            final(self).wf(),
            final(self).data@.len() == old(self).data@.len(),
            old(self).cursor == old(self).capacity() ==> r is Err && *final(self) == *old(self),
            old(self).cursor < old(self).capacity() ==> r is Ok && final(self)@ == old(self)@.push(v)
                && final(self).cursor == old(self).cursor + 1 && bit_at(
                final(self).data@,
                old(self).cursor as int,
            ) == v,
            forall|i: int|
                0 <= i < old(self).capacity() && i != old(self).cursor ==> #[trigger] bit_at(
                    final(self).data@,
                    i,
                ) == bit_at(old(self).data@, i),
    {
        if self.cursor >= 8 * self.data.len() {
            return Err(BufferExhausted);
        }
        let ghost before = self.data@;
        let c = self.cursor;
        let byte_index = c / 8;
        let k = (c % 8) as u8;
        let b = self.data[byte_index];
        let nb = if v {
            b | (0x80u8 >> k)
        } else {
            b & !(0x80u8 >> k)
        };
        proof {
            lemma_with_bit(b, k, v);
            assert(nb == with_bit(b, k, v));
        }
        self.data.set(byte_index, nb);
        self.cursor = c + 1;
        proof {
            let after = self.data@;
            assert forall|i: int| 0 <= i < 8 * before.len() && i != c implies bit_at(after, i) == bit_at(before, i) by {
                if i / 8 == byte_index as int {
                    assert(i % 8 != k as int);
                    assert(bit_of(nb, i % 8) == bit_of(b, i % 8));
                }
            }
            assert(bit_at(after, c as int) == v);
            assert(self@ =~= old(self)@.push(v));
        }
        Ok(())
    }

    /// The written bytes, cursor dropped.
    pub fn into_bytes(self) -> (r: Vec<u8>)
        ensures
            r@ == self.data@,
    {
        self.data
    }
}

} // verus!
