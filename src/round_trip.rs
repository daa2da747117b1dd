use vstd::prelude::*;
use crate::bits::{bytes_bits, lemma_bytes_bits_concat};
use crate::crc::transfer_crc;
use crate::disassembler::{
    chunk, frame_bits, frame_ok, frame_start, header_bits, is_last_frame, is_multi_frame,
};
use crate::reassembler::{ReassemblyError, ReassemblyModel, idle_model, reassembly_step};
use crate::serializer::padded;
use crate::tail_byte::lemma_tail_byte_round_trip;
use crate::deserializer::{FieldSchema, conforms_all, encodes_prefix};
use crate::value::{Field, fields_bits};

verus! {

/// Feeds `frames` in order, starting from `m`: the state reached and the
/// outcome of each frame.
pub open spec fn reassemble(signature: u64, m: ReassemblyModel, frames: Seq<Seq<u8>>) -> (
    ReassemblyModel,
    Seq<Result<Option<Seq<u8>>, ReassemblyError>>,
)
    decreases frames.len(),
{
    if frames.len() == 0 {
        (m, Seq::empty())
    } else {
        let prev = reassemble(signature, m, frames.drop_last());
        let next = reassembly_step(signature, prev.0, frames.last());
        (next.0, prev.1.push(next.1))
    }
}

/// The frames of a whole transfer of `stream`, as the disassembler emits them.
pub open spec fn is_transfer(
    stream: Seq<bool>,
    c: nat,
    signature: u64,
    transfer_id: u8,
    frames: Seq<Seq<u8>>,
) -> bool {
    &&& frames.len() >= 1
    &&& is_last_frame(stream.len(), c, (frames.len() - 1) as nat)
    &&& forall|i: int|
        0 <= i < frames.len() ==> frame_ok(
            stream,
            c,
            transfer_crc(signature, padded(stream)),
            transfer_id,
            i as nat,
            #[trigger] frames[i],
        ) && (i < frames.len() - 1 ==> !is_last_frame(stream.len(), c, i as nat))
}

proof fn lemma_padded_aligned(a: Seq<bool>, b: Seq<bool>)
    requires
        a.len() % 8 == 0,
    ensures
        padded(a + b) == a + padded(b),
{
    assert((a + b).len() % 8 == b.len() % 8);
    assert(padded(a + b) =~= a + padded(b));
}

proof fn lemma_padded_whole(a: Seq<bool>)
    requires
        a.len() % 8 == 0,
    ensures
        padded(a) == a,
{
    assert(padded(a) =~= a);
}

proof fn lemma_crc_bytes(crc: u16)
    ensures
        (((crc & 0xffu16) as u8) as u16) | ((((crc >> 8u16) as u8) as u16) << 8u16) == crc,
{
    assert((((crc & 0xffu16) as u8) as u16) | ((((crc >> 8u16) as u8) as u16) << 8u16) == crc)
        by (bit_vector);
}

proof fn lemma_reassemble_prefix(signature: u64, frames: Seq<Seq<u8>>, k: int)
    requires
        0 <= k < frames.len(),
    ensures
        reassemble(signature, idle_model(), frames.subrange(0, k + 1)) == ({
            let prev = reassemble(signature, idle_model(), frames.subrange(0, k));
            let next = reassembly_step(signature, prev.0, frames[k]);
            (next.0, prev.1.push(next.1))
        }),
{
    assert(frames.subrange(0, k + 1).drop_last() =~= frames.subrange(0, k));
}

/// While a multi-frame transfer is under way, the reassembler holds the bits
/// sent so far, whole bytes, and expects the toggle of the next frame.
proof fn lemma_multi_frame_progress(
    stream: Seq<bool>,
    c: nat,
    signature: u64,
    transfer_id: u8,
    frames: Seq<Seq<u8>>,
    k: int,
)
    requires
        3 <= c,
        is_multi_frame(stream.len(), c),
        is_transfer(stream, c, signature, transfer_id, frames),
        1 <= k < frames.len(),
    ensures
        ({
            let (m, rs) = reassemble(signature, idle_model(), frames.subrange(0, k));
            &&& m.in_progress
            &&& m.toggle == (k % 2 == 1)
            &&& m.crc == transfer_crc(signature, padded(stream))
            &&& frame_start(stream.len(), c, k as nat) % 8 == 0
            &&& bytes_bits(m.payload) == stream.subrange(0, frame_start(stream.len(), c, k as nat) as int)
            &&& rs.len() == k
            &&& forall|j: int| 0 <= j < k ==> rs[j] == Ok::<Option<Seq<u8>>, ReassemblyError>(None)
        }),
    decreases k,
{
    let len = stream.len();
    let crc = transfer_crc(signature, padded(stream));
    lemma_reassemble_prefix(signature, frames, k - 1);
    let f = frames[k - 1];
    assert(frame_ok(stream, c, crc, transfer_id, (k - 1) as nat, f));
    lemma_tail_byte_round_trip(
        k - 1 == 0,
        is_last_frame(len, c, (k - 1) as nat),
        (k - 1) % 2 == 1,
        transfer_id,
    );
    assert(!is_last_frame(len, c, (k - 1) as nat));
    if k == 1 {
        assert(frames.subrange(0, 0) =~= Seq::<Seq<u8>>::empty());
        assert(frame_start(len, c, 0) == 0);
        assert(frame_start(len, c, 1) == header_bits(c));
        lemma_crc_bytes(crc);
        let (m, rs) = reassemble(signature, idle_model(), frames.subrange(0, 1));
        assert(m.payload == f.subrange(2, f.len() - 1));
        assert(8 * (c - 3) == 8 * c - 24);
        assert(header_bits(c) % 8 == 0);
    } else {
        lemma_multi_frame_progress(stream, c, signature, transfer_id, frames, k - 1);
        let (m0, rs0) = reassemble(signature, idle_model(), frames.subrange(0, k - 1));
        let pos_before = frame_start(len, c, (k - 1) as nat);
        let pos_after = frame_start(len, c, k as nat);
        assert(chunk(len, c, (k - 1) as nat) == frame_bits(c));
        assert(pos_after == pos_before + frame_bits(c));
        assert(frame_bits(c) % 8 == 0);
        let body = f.subrange(0, f.len() - 1);
        lemma_padded_whole(stream.subrange(pos_before as int, pos_after as int));
        lemma_bytes_bits_concat(m0.payload, body);
        assert(stream.subrange(0, pos_before as int) + stream.subrange(pos_before as int, pos_after as int) =~= stream.subrange(
            0,
            pos_after as int,
        ));
        let (m, rs) = reassemble(signature, idle_model(), frames.subrange(0, k));
        assert(m.payload == m0.payload + body);
        assert forall|j: int| 0 <= j < k implies rs[j] == Ok::<Option<Seq<u8>>, ReassemblyError>(
            None,
        ) by {
            if j < k - 1 {
                assert(rs[j] == rs0[j]);
            }
        }
    }
}

/// Feeding a reassembler, in order and with none missing, the frames the
/// disassembler emits for a value gives back the value's bitstream, padded to
/// whole bytes, on the last frame, and nothing before it.
pub proof fn lemma_round_trip(
    stream: Seq<bool>,
    c: nat,
    signature: u64,
    transfer_id: u8,
    frames: Seq<Seq<u8>>,
)
    requires
        3 <= c,
        is_transfer(stream, c, signature, transfer_id, frames),
    ensures
        ({
            let rs = reassemble(signature, idle_model(), frames).1;
            &&& rs.len() == frames.len()
            &&& forall|j: int|
                0 <= j < frames.len() - 1 ==> rs[j] == Ok::<Option<Seq<u8>>, ReassemblyError>(None)
            &&& rs.last() is Ok
            &&& rs.last()->Ok_0 is Some
            &&& bytes_bits(rs.last()->Ok_0->Some_0) == padded(stream)
        }),
{
    let len = stream.len();
    let n = frames.len() as int;
    let crc = transfer_crc(signature, padded(stream));
    assert(frames.subrange(0, n) =~= frames);
    lemma_reassemble_prefix(signature, frames, n - 1);
    let f = frames[n - 1];
    assert(frame_ok(stream, c, crc, transfer_id, (n - 1) as nat, f));
    lemma_tail_byte_round_trip(n - 1 == 0, true, (n - 1) % 2 == 1, transfer_id);
    if !is_multi_frame(len, c) {
        assert(n == 1) by {
            if n > 1 {
                assert(frame_ok(stream, c, crc, transfer_id, 0, frames[0]));
                assert(frame_start(len, c, 0) == 0);
                assert(frame_start(len, c, 1) == len);
                assert(is_last_frame(len, c, 0));
            }
        }
        assert(frames.subrange(0, 0) =~= Seq::<Seq<u8>>::empty());
        assert(frame_start(len, c, 0) == 0);
        assert(stream.subrange(0, len as int) =~= stream);
    } else {
        assert(n > 1) by {
            if n == 1 {
                assert(!is_last_frame(len, c, 0));
            }
        }
        lemma_multi_frame_progress(stream, c, signature, transfer_id, frames, n - 1);
        let (m0, rs0) = reassemble(signature, idle_model(), frames.subrange(0, n - 1));
        let pos_before = frame_start(len, c, (n - 1) as nat);
        let body = f.subrange(0, f.len() - 1);
        lemma_bytes_bits_concat(m0.payload, body);
        lemma_padded_aligned(stream.subrange(0, pos_before as int), stream.subrange(pos_before as int, len as int));
        assert(stream.subrange(0, pos_before as int) + stream.subrange(pos_before as int, len as int) =~= stream);
        let rs = reassemble(signature, idle_model(), frames).1;
        assert forall|j: int| 0 <= j < n - 1 implies rs[j] == Ok::<Option<Seq<u8>>, ReassemblyError>(
            None,
        ) by {
            assert(rs[j] == rs0[j]);
        }
    }
}

/// A structured value sent as frames and reassembled is read back from the
/// delivered payload: the payload holds the value's bitstream at its start,
/// so decoding it with the value's schema gives a value with the same
/// bitstream (the contract of `decode_fields`).
pub proof fn lemma_value_round_trip(
    v: Seq<Field>,
    schema: Seq<FieldSchema>,
    c: nat,
    signature: u64,
    transfer_id: u8,
    frames: Seq<Seq<u8>>,
)
    requires
        3 <= c,
        conforms_all(v, schema),
        is_transfer(fields_bits(v), c, signature, transfer_id, frames),
    ensures
        ({
            let last = reassemble(signature, idle_model(), frames).1.last();
            &&& last is Ok
            &&& last->Ok_0 is Some
            &&& encodes_prefix(v, schema, last->Ok_0->Some_0)
        }),
{
    let stream = fields_bits(v);
    lemma_round_trip(stream, c, signature, transfer_id, frames);
    let p = reassemble(signature, idle_model(), frames).1.last()->Ok_0->Some_0;
    assert(bytes_bits(p).len() == 8 * p.len());
    assert(padded(stream).subrange(0, stream.len() as int) =~= stream);
}

} // verus!
