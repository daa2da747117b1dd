use vstd::prelude::*;
use crate::bits::{bytes_bits, lemma_bytes_bits_concat};
use crate::crc::{TransferCrc, crc_bits, lemma_crc_bits_concat, signature_bytes, transfer_crc};

verus! {

/// Why a frame ended a transfer without a value.
#[derive(Clone, Copy, Debug, PartialEq, Eq, Structural)]
pub enum ReassemblyError {
    /// The frame has no tail byte, or a first frame of several has no room for the checksum.
    MalformedFrame,
    /// A frame that continues a transfer arrived while none was in progress.
    UnexpectedFrame,
    /// The toggle bit is not the expected one: a frame was lost, repeated or reordered.
    ToggleMismatch,
    /// The checksum of the payload differs from the one the first frame carried.
    ChecksumMismatch,
}

/// The state of a reassembly, as the frames so far determine it.
pub struct ReassemblyModel {
    pub in_progress: bool,
    pub toggle: bool,
    pub crc: u16,
    pub payload: Seq<u8>,
}

pub open spec fn idle_model() -> ReassemblyModel {
    ReassemblyModel { in_progress: false, toggle: false, crc: 0, payload: Seq::empty() }
}

/// The outcome of one frame: the next state, and the payload when a transfer completes.
pub open spec fn reassembly_step(signature: u64, m: ReassemblyModel, f: Seq<u8>) -> (
    ReassemblyModel,
    Result<Option<Seq<u8>>, ReassemblyError>,
) {
    if f.len() == 0 {
        (m, Err(ReassemblyError::MalformedFrame))
    } else {
        let t = f.last();
        let start = t & 0x80u8 != 0;
        let end = t & 0x40u8 != 0;
        let toggle = t & 0x20u8 != 0;
        let body = f.subrange(0, f.len() - 1);
        if start {
            if end {
                (idle_model(), Ok(Some(body)))
            } else if f.len() < 3 {
                (idle_model(), Err(ReassemblyError::MalformedFrame))
            } else {
                (
                    ReassemblyModel {
                        in_progress: true,
                        toggle: true,
                        crc: (f[0] as u16) | ((f[1] as u16) << 8u16),
                        payload: f.subrange(2, f.len() - 1),
                    },
                    Ok(None),
                )
            }
        } else if !m.in_progress {
            (m, Err(ReassemblyError::UnexpectedFrame))
        } else if toggle != m.toggle {
            (idle_model(), Err(ReassemblyError::ToggleMismatch))
        } else {
            let p = m.payload + body;
            if !end {
                (ReassemblyModel { toggle: !m.toggle, payload: p, ..m }, Ok(None))
            } else if transfer_crc(signature, bytes_bits(p)) != m.crc {
                (idle_model(), Err(ReassemblyError::ChecksumMismatch))
            } else {
                (idle_model(), Ok(Some(p)))
            }
        }
    }
}

/// Receiver of the frames of one (source, transfer-id) pair.
pub struct FrameReassembler {
    signature: u64,
    in_progress: bool,
    toggle: bool,
    expected_crc: u16,
    payload: Vec<u8>,
    running: TransferCrc,
}

impl FrameReassembler {
    pub closed spec fn view(&self) -> ReassemblyModel {
        ReassemblyModel {
            in_progress: self.in_progress,
            toggle: self.toggle,
            crc: self.expected_crc,
            payload: self.payload@,
        }
    }

    pub closed spec fn signature(&self) -> u64 {
        self.signature
    }

    pub closed spec fn wf(&self) -> bool {
        self.running.value == transfer_crc(self.signature, bytes_bits(self.payload@))
    }

    fn reset(&mut self)
        ensures
            final(self).wf(),
            final(self)@ == idle_model(),
            final(self).signature == old(self).signature,
    {
        self.in_progress = false;
        self.toggle = false;
        self.expected_crc = 0;
        self.payload = Vec::new();
        self.running = TransferCrc::from_signature(self.signature);
        proof {
            assert(bytes_bits(self.payload@) =~= Seq::<bool>::empty());
            assert(crc_bits(self.running.value, Seq::<bool>::empty()) == self.running.value);
        }
    }

    /// Waits for the first frame of a transfer of a type with `signature`.
    pub fn new(signature: u64) -> (r: Self)
        ensures
            r.wf(),
            r@ == idle_model(),
            r.signature() == signature,
    {
        let mut r = FrameReassembler {
            signature,
            in_progress: false,
            toggle: false,
            expected_crc: 0,
            payload: Vec::new(),
            running: TransferCrc { value: 0 },
        };
        r.reset();
        r
    }

    /// Appends the bytes of `body` and feeds them to the running checksum.
    fn extend_payload(&mut self, body: &[u8])
        requires
            old(self).wf(),
        ensures
            final(self).wf(),
            final(self).payload@ == old(self).payload@ + body@,
            final(self).signature == old(self).signature,
            final(self).in_progress == old(self).in_progress,
            final(self).toggle == old(self).toggle,
            final(self).expected_crc == old(self).expected_crc,
    {
        let ghost before = self.payload@;
        let mut i: usize = 0;
        while i < body.len()
            invariant
                i <= body@.len(),
                self.payload@ == before + body@.subrange(0, i as int),
                self.signature == old(self).signature,
                self.running == old(self).running,
                self.in_progress == old(self).in_progress,
                self.toggle == old(self).toggle,
                self.expected_crc == old(self).expected_crc,
            decreases body@.len() - i,
        {
            self.payload.push(body[i]);
            i = i + 1;
            assert(self.payload@ =~= before + body@.subrange(0, i as int));
        }
        assert(body@.subrange(0, body@.len() as int) =~= body@);
        self.running.add_bytes(body);
        proof {
            let seed = crc_bits(0xffffu16, bytes_bits(signature_bytes(self.signature)));
            lemma_bytes_bits_concat(before, body@);
            lemma_crc_bits_concat(seed, bytes_bits(before), bytes_bits(body@));
        }
    }

    /// Whether a multi-frame transfer is under way; a frame that begins a
    /// transfer now would drop it.
    pub fn in_progress(&self) -> (r: bool)
        ensures
            r == self@.in_progress,
    {
        self.in_progress
    }

    /// Takes one frame (its occupied bytes, tail byte last). Returns the
    /// payload of a transfer that it completes; a frame that begins a transfer
    /// drops any transfer still in progress.
    pub fn receive(&mut self, frame: &[u8]) -> (r: Result<Option<Vec<u8>>, ReassemblyError>)
        requires
            old(self).wf(),
        ensures
            final(self).wf(),
            final(self).signature() == old(self).signature(),
            final(self)@ == reassembly_step(old(self).signature(), old(self)@, frame@).0,
            match (r, reassembly_step(old(self).signature(), old(self)@, frame@).1) {
                (Ok(Some(p)), Ok(Some(q))) => p@ == q,
                (Ok(None), Ok(None)) => true,
                (Err(e), Err(g)) => e == g,
                _ => false,
            },
    {
        let n = frame.len();
        if n == 0 {
            return Err(ReassemblyError::MalformedFrame);
        }
        let t = frame[n - 1];
        let start = t & 0x80u8 != 0;
        let end = t & 0x40u8 != 0;
        let toggle = t & 0x20u8 != 0;
        let body = vstd::slice::slice_subrange(frame, 0, n - 1);
        if start {
            if end {
                self.reset();
                let mut out: Vec<u8> = Vec::new();
                copy_into(&mut out, body);
                return Ok(Some(out));
            } else if n < 3 {
                self.reset();
                return Err(ReassemblyError::MalformedFrame);
            } else {
                self.reset();
                self.in_progress = true;
                self.toggle = true;
                self.expected_crc = (frame[0] as u16) | ((frame[1] as u16) << 8u16);
                self.extend_payload(vstd::slice::slice_subrange(frame, 2, n - 1));
                proof {
                    assert(self.payload@ =~= frame@.subrange(2, n - 1));
                }
                return Ok(None);
            }
        } else if !self.in_progress {
            return Err(ReassemblyError::UnexpectedFrame);
        } else if toggle != self.toggle {
            self.reset();
            return Err(ReassemblyError::ToggleMismatch);
        }
        self.extend_payload(body);
        if !end {
            self.toggle = !self.toggle;
            Ok(None)
        } else if self.running.get() != self.expected_crc {
            self.reset();
            Err(ReassemblyError::ChecksumMismatch)
        } else {
            let mut out: Vec<u8> = Vec::new();
            std::mem::swap(&mut out, &mut self.payload);
            let ghost p = out@;
            self.reset();
            proof {
                assert(out@ == p);
            }
            Ok(Some(out))
        }
    }
}

/// Appends the bytes of `src`.
fn copy_into(dst: &mut Vec<u8>, src: &[u8])
    ensures
        final(dst)@ == old(dst)@ + src@,
{
    let ghost start = old(dst)@;
    let mut i: usize = 0;
    while i < src.len()
        invariant
            i <= src@.len(),
            dst@ == start + src@.subrange(0, i as int),
        decreases src@.len() - i,
    {
        dst.push(src[i]);
        i = i + 1;
        assert(dst@ =~= start + src@.subrange(0, i as int));
    }
    assert(src@.subrange(0, src@.len() as int) =~= src@);
}

} // verus!
