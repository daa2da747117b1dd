use vstd::prelude::*;
use crate::bits::{BitBuffer, bit_at, bytes_bits};
use crate::crc::{TransferCrc, crc_bits, lemma_crc_bits_concat, signature_bytes, transfer_crc};
use crate::value::{Field, fields_bits, fields_wf, flatten};

verus! {

/// Outcome of one call of `Serializer::serialize`.
#[derive(Clone, Copy, Debug, PartialEq, Eq, Structural)]
pub enum SerializationResult {
    /// Every bit of the value has been written.
    Finished,
    /// The buffer is full and bits remain.
    BufferFull,
}

/// `s` followed by zero bits up to a whole number of bytes.
pub open spec fn padded(s: Seq<bool>) -> Seq<bool> {
    s + Seq::new(((8 - s.len() % 8) % 8) as nat, |i: int| false)
}

/// Resumable serialization of a structured value: its bitstream and how much
/// of it has been written.
pub struct Serializer {
    pub bits: Vec<bool>,
    pub position: usize,
}

impl Serializer {
    pub open spec fn wf(&self) -> bool {
        self.position <= self.bits@.len()
    }

    /// The whole bitstream of the value.
    pub open spec fn stream(&self) -> Seq<bool> {
        self.bits@
    }

    /// Starts at the beginning of the value's bitstream.
    pub fn from_structure(fields: &Vec<Field>) -> (r: Serializer)
        requires
            fields_wf(fields@),
        ensures
            r.wf(),
            r.stream() == fields_bits(fields@),
            r.position == 0,
    {
        Serializer { bits: flatten(fields), position: 0 }
    }

    /// Whether the whole value fits one frame of `max_data_length` bytes beside
    /// its tail byte.
    pub fn single_frame_transfer(&self, max_data_length: usize) -> (r: bool)
        requires
            1 <= max_data_length,
            8 * max_data_length <= usize::MAX,
        ensures
            r == (self.stream().len() <= 8 * (max_data_length - 1)),
    {
        self.bits.len() <= 8 * (max_data_length - 1)
    }

    /// Writes the next bits into `buffer`, as many as fit.
    pub fn serialize(&mut self, buffer: &mut BitBuffer) -> (r: SerializationResult)
        requires
            old(self).wf(),
            old(buffer).wf(),
            8 * old(buffer).data@.len() <= usize::MAX,
        ensures
            final(self).wf(),
            final(self).bits == old(self).bits,
            final(buffer).wf(),
            final(buffer).data@.len() == old(buffer).data@.len(),
            final(self).position - old(self).position == final(buffer).cursor - old(buffer).cursor,
            final(self).position == old(self).position + old(buffer).capacity() - old(buffer).cursor
                || final(self).position == old(self).stream().len(),
            final(self).position <= old(self).position + old(buffer).capacity() - old(buffer).cursor,
            final(buffer)@ == old(buffer)@ + old(self).stream().subrange(
                old(self).position as int,
                final(self).position as int,
            ),
            forall|i: int|
                0 <= i < old(buffer).capacity() && !(old(buffer).cursor <= i < final(buffer).cursor)
                    ==> #[trigger] bit_at(final(buffer).data@, i) == bit_at(old(buffer).data@, i),
            r == SerializationResult::Finished <==> final(self).position == old(self).stream().len(),
    {
        let ghost pos_before = self.position;
        let ghost b0 = *buffer;
        while self.position < self.bits.len() && buffer.cursor < 8 * buffer.data.len()
            invariant
                self.wf(),
                self.bits == old(self).bits,
                pos_before <= self.position,
                buffer.wf(),
                buffer.data@.len() == b0.data@.len(),
                8 * buffer.data@.len() <= usize::MAX,
                self.position - pos_before == buffer.cursor - b0.cursor,
                buffer@ == b0@ + self.bits@.subrange(pos_before as int, self.position as int),
                forall|i: int|
                    0 <= i < b0.capacity() && !(b0.cursor <= i < buffer.cursor) ==> #[trigger] bit_at(
                        buffer.data@,
                        i,
                    ) == bit_at(b0.data@, i),
            decreases self.bits@.len() - self.position,
        {
            let ghost before = *buffer;
            let _ = buffer.push_bit(self.bits[self.position]);
            proof {
                assert(self.bits@.subrange(pos_before as int, self.position + 1) =~= self.bits@.subrange(
                    pos_before as int,
                    self.position as int,
                ).push(self.bits@[self.position as int]));
                assert forall|i: int|
                    0 <= i < b0.capacity() && !(b0.cursor <= i < buffer.cursor) implies #[trigger] bit_at(
                    buffer.data@,
                    i,
                ) == bit_at(b0.data@, i) by {
                    assert(bit_at(buffer.data@, i) == bit_at(before.data@, i));
                }
            }
            self.position = self.position + 1;
        }
        if self.position == self.bits.len() {
            SerializationResult::Finished
        } else {
            SerializationResult::BufferFull
        }
    }

    /// The transfer checksum of the whole value under `signature`; the
    /// position is left as it is.
    pub fn crc(&self, signature: u64) -> (r: u16)
        requires
            self.wf(),
        ensures
            r == transfer_crc(signature, padded(self.stream())),
    {
        let mut crc = TransferCrc::from_signature(signature);
        crc.add_bits(&self.bits, 0, self.bits.len());
        let ghost c1 = crc.value;
        let pad: usize = (8 - self.bits.len() % 8) % 8;
        let mut zeros: Vec<bool> = Vec::new();
        let mut i: usize = 0;
        while i < pad
            invariant
                i <= pad,
                zeros@ == Seq::new(i as nat, |k: int| false),
            decreases pad - i,
        {
            zeros.push(false);
            i = i + 1;
            assert(zeros@ =~= Seq::new(i as nat, |k: int| false));
        }
        let ghost c0 = crc.value;
        crc.add_bits(&zeros, 0, pad);
        proof {
            assert(self.bits@.subrange(0, self.bits@.len() as int) =~= self.bits@);
            assert(zeros@.subrange(0, pad as int) =~= zeros@);
            let init = crc_bits(0xffffu16, bytes_bits(signature_bytes(signature)));
            lemma_crc_bits_concat(init, self.bits@, zeros@);
            assert(padded(self.bits@) =~= self.bits@ + zeros@);
        }
        crc.get()
    }
}

} // verus!
