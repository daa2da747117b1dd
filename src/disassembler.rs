use vstd::prelude::*;
use crate::bits::{BitBuffer, bit_at, bytes_bits, lemma_prefix_bytes};
use crate::serializer::{SerializationResult, Serializer, padded};
use crate::tail_byte::{TailByte, tail_byte_value};
use crate::crc::transfer_crc;
use crate::value::{Field, fields_wf};

verus! {

/// A message ready to send: its frame identifier, the data type signature of
/// its body and the body itself.
pub struct UavcanFrame {
    pub id: u32,
    pub data_type_signature: u64,
    pub body: Vec<Field>,
}

/// One transport frame: an identifier and its occupied bytes, the tail byte last.
#[derive(Clone, Debug, PartialEq, Eq)]
pub struct TransferFrame {
    pub id: u32,
    pub data: Vec<u8>,
}

/// Payload bits of a frame that is not the first one of a multi-frame transfer.
pub open spec fn frame_bits(c: nat) -> nat {
    8 * (c - 1) as nat
}

/// Payload bits of the first frame of a multi-frame transfer (two bytes go to the checksum).
pub open spec fn header_bits(c: nat) -> nat {
    8 * (c - 3) as nat
}

/// Whether a stream of `len` bits needs more than one frame of capacity `c`.
pub open spec fn is_multi_frame(len: nat, c: nat) -> bool {
    len > frame_bits(c)
}

/// The most bits frame `i` can carry.
pub open spec fn chunk(len: nat, c: nat, i: nat) -> nat {
    if i == 0 && is_multi_frame(len, c) {
        header_bits(c)
    } else {
        frame_bits(c)
    }
}

/// Position in the stream before frame `i`.
pub open spec fn frame_start(len: nat, c: nat, i: nat) -> nat
    decreases i,
{
    if i == 0 {
        0
    } else {
        let p = frame_start(len, c, (i - 1) as nat) + chunk(len, c, (i - 1) as nat);
        if p < len {
            p
        } else {
            len
        }
    }
}

/// Whether frame `i` ends the transfer.
pub open spec fn is_last_frame(len: nat, c: nat, i: nat) -> bool {
    frame_start(len, c, i + 1) == len && !(i == 0 && is_multi_frame(len, c))
}

/// Frame `i` of the transfer of `stream` in frames of capacity `c`: the first
/// frame of a multi-frame transfer is full and begins with the checksum, low
/// byte first; every other frame holds its part of the stream, padded with zero
/// bits to whole bytes; the last one is cut after its last payload byte;
/// every frame ends with its tail byte.
pub open spec fn frame_ok(stream: Seq<bool>, c: nat, crc: u16, transfer_id: u8, i: nat, f: Seq<u8>) -> bool {
    let len = stream.len();
    let pos_before = frame_start(len, c, i);
    let pos_after = frame_start(len, c, i + 1);
    let last = is_last_frame(len, c, i);
    let header = i == 0 && is_multi_frame(len, c);
    &&& f.len() >= 1
    &&& header ==> {
        &&& f.len() == c
        &&& f[0] == (crc & 0xffu16) as u8
        &&& f[1] == (crc >> 8u16) as u8
        &&& bytes_bits(f.subrange(2, f.len() - 1)) == stream.subrange(pos_before as int, pos_after as int)
    }
    &&& !header ==> {
        &&& f.len() == if last {
            (pos_after - pos_before + 7) / 8 + 1
        } else {
            c as int
        }
        &&& bytes_bits(f.subrange(0, f.len() - 1)) == padded(stream.subrange(pos_before as int, pos_after as int))
    }
    &&& f.last() == tail_byte_value(i == 0, last, i % 2 == 1, transfer_id)
}

/// Emits the frames of one transfer, one per call.
pub struct FrameDisassembler {
    serializer: Serializer,
    started: bool,
    finished: bool,
    id: u32,
    toggle: bool,
    transfer_id: u8,
    signature: u64,
    max_data_length: usize,
    emitted: Ghost<nat>,
}

impl FrameDisassembler {
    pub closed spec fn stream(&self) -> Seq<bool> {
        self.serializer.stream()
    }

    pub closed spec fn capacity(&self) -> nat {
        self.max_data_length as nat
    }

    /// Number of frames emitted so far.
    pub closed spec fn emitted(&self) -> nat {
        self.emitted@
    }

    pub closed spec fn spec_finished(&self) -> bool {
        self.finished
    }

    pub closed spec fn spec_id(&self) -> u32 {
        self.id
    }

    pub closed spec fn spec_transfer_id(&self) -> u8 {
        self.transfer_id
    }

    pub closed spec fn signature(&self) -> u64 {
        self.signature
    }

    /// The checksum the transfer carries when it spans several frames.
    pub open spec fn spec_crc(&self) -> u16 {
        transfer_crc(self.signature(), padded(self.stream()))
    }

    pub closed spec fn wf(&self) -> bool {
        let len = self.serializer.stream().len();
        let c = self.max_data_length as nat;
        &&& self.serializer.wf()
        &&& 3 <= c
        &&& 8 * c <= usize::MAX
        &&& self.started == (self.emitted@ > 0)
        &&& self.toggle == (self.emitted@ % 2 == 1)
        &&& !self.finished ==> {
            &&& self.serializer.position == frame_start(len, c, self.emitted@)
            &&& self.emitted@ > 0 ==> !is_last_frame(len, c, (self.emitted@ - 1) as nat)
        }
        &&& self.finished ==> self.emitted@ > 0 && is_last_frame(len, c, (self.emitted@ - 1) as nat)
    }

    /// Prepares the transfer of `frame` under `transfer_id`, in frames of
    /// `max_data_length` bytes.
    pub fn from_uavcan_frame(frame: UavcanFrame, transfer_id: u8, max_data_length: usize) -> (r: Self)
        requires
            fields_wf(frame.body@),
            3 <= max_data_length,
            8 * max_data_length <= usize::MAX,
        ensures
            r.wf(),
            r.stream() == crate::value::fields_bits(frame.body@),
            r.capacity() == max_data_length,
            r.emitted() == 0,
            !r.spec_finished(),
            r.spec_id() == frame.id,
            r.spec_transfer_id() == transfer_id,
            r.signature() == frame.data_type_signature,
    {
        FrameDisassembler {
            serializer: Serializer::from_structure(&frame.body),
            started: false,
            finished: false,
            id: frame.id,
            toggle: false,
            transfer_id: transfer_id,
            signature: frame.data_type_signature,
            max_data_length,
            emitted: Ghost(0),
        }
    }

    /// Whether the last frame has been emitted.
    pub fn finished(&self) -> (r: bool)
        ensures
            r == self.spec_finished(),
    {
        self.finished
    }

    /// The next frame of the transfer, or `None` once the last has been emitted.
    #[verifier::rlimit(100)]
    pub fn next_transfer_frame(&mut self) -> (r: Option<TransferFrame>)
        requires
            old(self).wf(),
        ensures
            final(self).wf(),
            final(self).stream() == old(self).stream(),
            final(self).capacity() == old(self).capacity(),
            final(self).spec_id() == old(self).spec_id(),
            final(self).spec_transfer_id() == old(self).spec_transfer_id(),
            final(self).signature() == old(self).signature(),
            old(self).spec_finished() ==> r is None && *final(self) == *old(self),
            !old(self).spec_finished() ==> {
                &&& r is Some
                &&& r->0.id == old(self).spec_id()
                &&& final(self).emitted() == old(self).emitted() + 1
                &&& final(self).spec_finished() == is_last_frame(
                    old(self).stream().len(),
                    old(self).capacity(),
                    old(self).emitted(),
                )
                &&& frame_ok(
                    old(self).stream(),
                    old(self).capacity(),
                    old(self).spec_crc(),
                    old(self).spec_transfer_id(),
                    old(self).emitted(),
                    r->0.data@,
                )
            },
    {
        if self.finished {
            return None;
        }
        let ghost len = self.serializer.stream().len();
        let ghost i = self.emitted@;
        let ghost pos_before = self.serializer.position as nat;
        let c = self.max_data_length;
        proof {
            assert(frame_start(len, c as nat, i + 1) == if pos_before + chunk(len, c as nat, i) < len {
                pos_before + chunk(len, c as nat, i)
            } else {
                len
            });
        }
        let first_of_multi_frame = !self.started && !self.serializer.single_frame_transfer(c);
        let mut data: Vec<u8> = Vec::new();
        if first_of_multi_frame {
            let crc = self.serializer.crc(self.signature);
            data.push((crc & 0xffu16) as u8);
            data.push((crc >> 8u16) as u8);
            let mut buffer = BitBuffer::with_length(c - 3);
            let _ = self.serializer.serialize(&mut buffer);
            proof {
                lemma_prefix_bytes(buffer.data@, buffer.cursor as nat, (c - 3) as nat);
                assert(buffer.data@.subrange(0, (c - 3) as int) =~= buffer.data@);
                assert(buffer@ =~= self.serializer.stream().subrange(pos_before as int, self.serializer.position as int));
            }
            append_bytes(&mut data, &buffer.data, c - 3);
            data.push(TailByte::new(true, false, self.toggle, self.transfer_id).encode());
            proof {
                assert(data@.subrange(2, data@.len() - 1) =~= buffer.data@);
            }
        } else {
            let mut buffer = BitBuffer::with_length(c - 1);
            let res = self.serializer.serialize(&mut buffer);
            let end_of_transfer = res == SerializationResult::Finished;
            let n: usize = if end_of_transfer {
                self.finished = true;
                (buffer.bit_length() + 7) / 8
            } else {
                c - 1
            };
            proof {
                lemma_prefix_bytes(buffer.data@, buffer.cursor as nat, n as nat);
                assert(buffer@ =~= self.serializer.stream().subrange(pos_before as int, self.serializer.position as int));
                assert(padded(buffer@) =~= buffer@ + Seq::new((8 * n - buffer.cursor) as nat, |k: int| false));
            }
            append_bytes(&mut data, &buffer.data, n);
            data.push(TailByte::new(!self.started, end_of_transfer, self.toggle, self.transfer_id).encode());
            proof {
                assert(data@.subrange(0, data@.len() - 1) =~= buffer.data@.subrange(0, n as int));
            }
        }
        self.started = true;
        self.toggle = !self.toggle;
        self.emitted = Ghost(self.emitted@ + 1);
        Some(TransferFrame { id: self.id, data })
    }
}

/// A value whose bitstream exactly fills one frame beside the tail byte is sent
/// as one full frame that starts and ends the transfer, with toggle clear.
pub proof fn lemma_single_frame_boundary(stream: Seq<bool>, c: nat, crc: u16, transfer_id: u8, f: Seq<u8>)
    requires
        3 <= c,
        stream.len() == frame_bits(c),
        frame_ok(stream, c, crc, transfer_id, 0, f),
    ensures
        is_last_frame(stream.len(), c, 0),
        f.len() == c,
        f.last() == tail_byte_value(true, true, false, transfer_id),
{
    let len = stream.len();
    assert(frame_start(len, c, 0) == 0);
    assert(frame_start(len, c, 1) == len);
    assert((len + 7) / 8 == c - 1);
}

/// A value longer than one frame's payload starts with a full frame that
/// carries the transfer checksum, low byte first, and does not end the transfer.
pub proof fn lemma_multi_frame_header(
    stream: Seq<bool>,
    c: nat,
    signature: u64,
    transfer_id: u8,
    f: Seq<u8>,
)
    requires
        3 <= c,
        stream.len() > frame_bits(c),
        frame_ok(stream, c, transfer_crc(signature, padded(stream)), transfer_id, 0, f),
    ensures
        !is_last_frame(stream.len(), c, 0),
        f.len() == c,
        f[0] == (transfer_crc(signature, padded(stream)) & 0xffu16) as u8,
        f[1] == (transfer_crc(signature, padded(stream)) >> 8u16) as u8,
        f.last() == tail_byte_value(true, false, false, transfer_id),
{
}

/// The toggle bit of frame `i` is set exactly when `i` is odd.
pub proof fn lemma_toggle_alternation(
    stream: Seq<bool>,
    c: nat,
    crc: u16,
    transfer_id: u8,
    i: nat,
    f: Seq<u8>,
)
    requires
        frame_ok(stream, c, crc, transfer_id, i, f),
    ensures
        (f.last() & 0x20u8 != 0) == (i % 2 == 1),
        (f.last() & 0x80u8 != 0) == (i == 0),
        f.last() & 0x1fu8 == transfer_id % 32,
{
    crate::tail_byte::lemma_tail_byte_round_trip(
        i == 0,
        is_last_frame(stream.len(), c, i),
        i % 2 == 1,
        transfer_id,
    );
}

/// The last frame holds the remaining bits in whole bytes and the tail byte:
/// it is full only when those bits need every payload byte.
pub proof fn lemma_last_frame_length(
    stream: Seq<bool>,
    c: nat,
    crc: u16,
    transfer_id: u8,
    i: nat,
    f: Seq<u8>,
)
    requires
        3 <= c,
        is_last_frame(stream.len(), c, i),
        frame_ok(stream, c, crc, transfer_id, i, f),
    ensures
        ({
            let remaining = stream.len() - frame_start(stream.len(), c, i);
            &&& f.len() == (remaining + 7) / 8 + 1
            &&& f.len() <= c
            &&& (f.len() == c) == (remaining > 8 * (c - 2))
        }),
{
    let len = stream.len();
    let pos_before = frame_start(len, c, i);
    let remaining = len - pos_before;
    assert(frame_start(len, c, i + 1) == len);
    assert(remaining <= 8 * (c - 1));
    let cm = (c - 1) as int;
    let r = remaining as int;
    assert((r + 7) / 8 <= cm) by (nonlinear_arith)
        requires
            0 <= r <= 8 * cm,
    ;
    assert(((r + 7) / 8 == cm) == (r > 8 * (cm - 1))) by (nonlinear_arith)
        requires
            0 <= r <= 8 * cm,
            cm >= 2,
    ;
}

proof fn lemma_frame_start_bounds(len: nat, c: nat, i: nat)
    requires
        3 <= c,
        i >= 1,
    ensures
        frame_start(len, c, i) <= len,
        frame_start(len, c, i) >= len || frame_start(len, c, i) >= (i - 1) * frame_bits(c),
    decreases i,
{
    if i > 1 {
        lemma_frame_start_bounds(len, c, (i - 1) as nat);
        assert((i - 2) * frame_bits(c) + frame_bits(c) == (i - 1) * frame_bits(c)) by (nonlinear_arith)
            requires
                i >= 2,
        ;
    }
}

/// Every transfer ends: some frame among the first `len / (8 * (c - 1)) + 2` is its last.
pub proof fn lemma_transfer_ends(len: nat, c: nat)
    requires
        3 <= c,
    ensures
        exists|i: nat| i <= len / frame_bits(c) + 1 && #[trigger] is_last_frame(len, c, i),
{
    let b = frame_bits(c);
    let n = len / b + 2;
    lemma_frame_start_bounds(len, c, n);
    assert((n - 1) * b >= len) by (nonlinear_arith)
        requires
            b > 0,
            n == len / b + 2,
    ;
    assert(is_last_frame(len, c, (n - 1) as nat));
}

/// Appends the first `n` bytes of `src`.
fn append_bytes(dst: &mut Vec<u8>, src: &Vec<u8>, n: usize)
    requires
        n <= src@.len(),
    ensures
        final(dst)@ == old(dst)@ + src@.subrange(0, n as int),
{
    let ghost start = old(dst)@;
    let mut i: usize = 0;
    while i < n
        invariant
            i <= n <= src@.len(),
            dst@ == start + src@.subrange(0, i as int),
        decreases n - i,
    {
        dst.push(src[i]);
        i = i + 1;
        assert(dst@ =~= start + src@.subrange(0, i as int));
    }
}

} // verus!
