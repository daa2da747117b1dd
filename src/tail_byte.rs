use vstd::prelude::*;

verus! {

/// The control byte closing every frame of a transfer.
#[derive(Clone, Copy, Debug, PartialEq, Eq, Structural)]
pub struct TailByte {
    pub start_of_transfer: bool,
    pub end_of_transfer: bool,
    pub toggle: bool,
    /// Wraps modulo 32 on the wire.
    pub transfer_id: u8,
}

/// Start in bit 7, end in bit 6, toggle in bit 5, the transfer-id modulo 32 below.
pub open spec fn tail_byte_value(start: bool, end: bool, toggle: bool, transfer_id: u8) -> u8 {
    (if start {
        0x80u8
    } else {
        0u8
    }) | (if end {
        0x40u8
    } else {
        0u8
    }) | (if toggle {
        0x20u8
    } else {
        0u8
    }) | (transfer_id & 0x1fu8)
}

impl TailByte {
    pub fn new(start_of_transfer: bool, end_of_transfer: bool, toggle: bool, transfer_id: u8) -> (r:
        TailByte)
        ensures
            r == (TailByte { start_of_transfer, end_of_transfer, toggle, transfer_id }),
    {
        TailByte { start_of_transfer, end_of_transfer, toggle, transfer_id }
    }

    pub open spec fn spec_encode(&self) -> u8 {
        tail_byte_value(self.start_of_transfer, self.end_of_transfer, self.toggle, self.transfer_id)
    }

    /// Packs the four fields into one byte.
    pub fn encode(&self) -> (r: u8)
        ensures
            r == self.spec_encode(),
    {
        (if self.start_of_transfer {
            0x80u8
        } else {
            0u8
        }) | (if self.end_of_transfer {
            0x40u8
        } else {
            0u8
        }) | (if self.toggle {
            0x20u8
        } else {
            0u8
        }) | (self.transfer_id & 0x1fu8)
    }

    /// Unpacks a byte into the four fields.
    pub fn decode(b: u8) -> (r: TailByte)
        ensures
            r.start_of_transfer == (b & 0x80u8 != 0),
            r.end_of_transfer == (b & 0x40u8 != 0),
            r.toggle == (b & 0x20u8 != 0),
            r.transfer_id == b & 0x1fu8,
            r.spec_encode() == b,
    {
        let r = TailByte {
            start_of_transfer: b & 0x80u8 != 0,
            end_of_transfer: b & 0x40u8 != 0,
            toggle: b & 0x20u8 != 0,
            transfer_id: b & 0x1fu8,
        };
        proof {
            lemma_encode_decode(b);
        }
        r
    }
}

proof fn lemma_encode_decode(b: u8)
    ensures
        tail_byte_value(b & 0x80u8 != 0, b & 0x40u8 != 0, b & 0x20u8 != 0, b & 0x1fu8) == b,
{
    let s: u8 = if b & 0x80u8 != 0 { 0x80u8 } else { 0u8 };
    let e: u8 = if b & 0x40u8 != 0 { 0x40u8 } else { 0u8 };
    let t: u8 = if b & 0x20u8 != 0 { 0x20u8 } else { 0u8 };
    assert(s == b & 0x80u8 && e == b & 0x40u8 && t == b & 0x20u8) by (bit_vector)
        requires
            s == if b & 0x80u8 != 0 { 0x80u8 } else { 0u8 },
            e == if b & 0x40u8 != 0 { 0x40u8 } else { 0u8 },
            t == if b & 0x20u8 != 0 { 0x20u8 } else { 0u8 },
    ;
    assert((b & 0x80u8) | (b & 0x40u8) | (b & 0x20u8) | ((b & 0x1fu8) & 0x1fu8) == b) by (bit_vector);
    assert(tail_byte_value(b & 0x80u8 != 0, b & 0x40u8 != 0, b & 0x20u8 != 0, b & 0x1fu8) == s | e | t
        | ((b & 0x1fu8) & 0x1fu8));
}

/// Decoding an encoded tail byte gives back its fields, the transfer-id modulo 32.
pub proof fn lemma_tail_byte_round_trip(start: bool, end: bool, toggle: bool, transfer_id: u8)
    ensures
        ({
            let b = tail_byte_value(start, end, toggle, transfer_id);
            &&& (b & 0x80u8 != 0) == start
            &&& (b & 0x40u8 != 0) == end
            &&& (b & 0x20u8 != 0) == toggle
            &&& b & 0x1fu8 == transfer_id % 32
        }),
{
    let s: u8 = if start { 0x80u8 } else { 0u8 };
    let e: u8 = if end { 0x40u8 } else { 0u8 };
    let t: u8 = if toggle { 0x20u8 } else { 0u8 };
    let x = transfer_id;
    assert(((s | e | t | (x & 0x1fu8)) & 0x80u8 != 0) == (s == 0x80u8)
        && ((s | e | t | (x & 0x1fu8)) & 0x40u8 != 0) == (e == 0x40u8)
        && ((s | e | t | (x & 0x1fu8)) & 0x20u8 != 0) == (t == 0x20u8)
        && (s | e | t | (x & 0x1fu8)) & 0x1fu8 == x % 32) by (bit_vector)
        requires
            s == 0x80u8 || s == 0u8,
            e == 0x40u8 || e == 0u8,
            t == 0x20u8 || t == 0u8,
    ;
}

} // verus!
