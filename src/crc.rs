use vstd::prelude::*;
use crate::bits::{bit_of, bit_at, bytes_bits};

verus! {

/// Generator polynomial of the transfer checksum (CRC-16-CCITT).
pub const CRC_POLYNOMIAL: u16 = 0x1021;

/// Starting value of the transfer checksum.
pub const CRC_INITIAL: u16 = 0xffff;

/// One bit of input, most significant bit of the register first.
pub open spec fn crc_bit(c: u16, b: bool) -> u16 {
    let top = ((c >> 15u16) & 1u16 == 1u16) != b;
    let shifted = (c << 1u16) as u16;
    if top {
        shifted ^ 0x1021u16
    } else {
        shifted
    }
}

pub open spec fn crc_bits(c: u16, bits: Seq<bool>) -> u16
    decreases bits.len(),
{
    if bits.len() == 0 {
        c
    } else {
        crc_bit(crc_bits(c, bits.drop_last()), bits.last())
    }
}

/// The eight bytes of a signature, least significant first.
pub open spec fn signature_bytes(signature: u64) -> Seq<u8> {
    Seq::new(8, |i: int| ((signature >> (8 * i) as u64) & 0xffu64) as u8)
}

/// Checksum of a transfer: the register starts at `CRC_INITIAL`, takes the
/// signature's bytes and then the payload's.
pub open spec fn transfer_crc(signature: u64, payload: Seq<bool>) -> u16 {
    crc_bits(crc_bits(0xffffu16, bytes_bits(signature_bytes(signature))), payload)
}

/// Running transfer checksum.
pub struct TransferCrc {
    pub value: u16,
}

proof fn lemma_crc_bits_push(c: u16, bits: Seq<bool>, b: bool)
    ensures
        crc_bits(c, bits.push(b)) == crc_bit(crc_bits(c, bits), b),
{
    assert(bits.push(b).drop_last() =~= bits);
}

/// Feeding two runs of bits one after the other is feeding their concatenation.
pub proof fn lemma_crc_bits_concat(c: u16, a: Seq<bool>, b: Seq<bool>)
    ensures
        crc_bits(c, a + b) == crc_bits(crc_bits(c, a), b),
    decreases b.len(),
{
    if b.len() == 0 {
        assert(a + b =~= a);
    } else {
        assert((a + b).drop_last() =~= a + b.drop_last());
        lemma_crc_bits_concat(c, a, b.drop_last());
    }
}

impl TransferCrc {
    /// A checksum seeded with a data type signature.
    pub fn from_signature(signature: u64) -> (r: TransferCrc)
        ensures
            r.value == crc_bits(0xffffu16, bytes_bits(signature_bytes(signature))),
    {
        let mut bytes: Vec<u8> = Vec::new();
        let mut i: u64 = 0;
        while i < 8
            invariant
                i <= 8,
                bytes@ =~= signature_bytes(signature).subrange(0, i as int),
            decreases 8 - i,
        {
            let byte = (signature >> (8 * i)) & 0xffu64;
            assert(byte <= 0xff) by (bit_vector)
                requires
                    byte == (signature >> (8 * i)) & 0xffu64,
            ;
            bytes.push(byte as u8);
            i = i + 1;
        }
        assert(bytes@ =~= signature_bytes(signature));
        let mut crc = TransferCrc { value: CRC_INITIAL };
        crc.add_bytes(bytes.as_slice());
        crc
    }

    /// Feeds one bit.
    pub fn add_bit(&mut self, b: bool)
        ensures
            final(self).value == crc_bit(old(self).value, b),
    {
        let c = self.value;
        let top = ((c >> 15u16) & 1u16 == 1u16) != b;
        let shifted = c << 1u16;
        self.value = if top {
            shifted ^ CRC_POLYNOMIAL
        } else {
            shifted
        };
    }

    /// Feeds a run of bits.
    pub fn add_bits(&mut self, bits: &Vec<bool>, from: usize, to: usize)
        requires
            from <= to <= bits@.len(),
        ensures
            final(self).value == crc_bits(old(self).value, bits@.subrange(from as int, to as int)),
    {
        let ghost c0 = old(self).value;
        let mut i: usize = from;
        while i < to
            invariant
                from <= i <= to <= bits@.len(),
                self.value == crc_bits(c0, bits@.subrange(from as int, i as int)),
            decreases to - i,
        {
            proof {
                lemma_crc_bits_push(c0, bits@.subrange(from as int, i as int), bits@[i as int]);
                assert(bits@.subrange(from as int, i + 1) =~= bits@.subrange(from as int, i as int).push(bits@[i as int]));
            }
            self.add_bit(bits[i]);
            i = i + 1;
        }
    }

    /// Feeds bytes, each most significant bit first.
    pub fn add_bytes(&mut self, bytes: &[u8])
        ensures
            final(self).value == crc_bits(old(self).value, bytes_bits(bytes@)),
    {
        let ghost c0 = old(self).value;
        let ghost all = bytes_bits(bytes@);
        let mut i: usize = 0;
        while i < bytes.len()
            invariant
                i <= bytes@.len(),
                all == bytes_bits(bytes@),
                self.value == crc_bits(c0, all.subrange(0, 8 * i as int)),
            decreases bytes@.len() - i,
        {
            let b = bytes[i];
            let mut k: u8 = 0;
            while k < 8
                invariant
                    k <= 8,
                    i < bytes@.len(),
                    b == bytes@[i as int],
                    all == bytes_bits(bytes@),
                    self.value == crc_bits(c0, all.subrange(0, 8 * i + k)),
                decreases 8 - k,
            {
                let bit = ((b >> (7 - k)) & 1u8) == 1u8;
                proof {
                    let j = 8 * i + k;
                    assert(j / 8 == i as int && j % 8 == k as int);
                    assert(bit == bit_at(bytes@, j));
                    lemma_crc_bits_push(c0, all.subrange(0, j), bit);
                    assert(all.subrange(0, j + 1) =~= all.subrange(0, j).push(bit));
                }
                self.add_bit(bit);
                k = k + 1;
            }
            i = i + 1;
        }
        assert(all.subrange(0, 8 * bytes@.len() as int) =~= all);
    }

    pub fn get(&self) -> (r: u16)
        ensures
            r == self.value,
    {
        self.value
    }
}

} // verus!
