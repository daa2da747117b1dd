use vstd::prelude::*;
use vstd::slice::slice_subrange;

verus! {

/// Identifier of a CAN frame: 29-bit extended or 11-bit standard.
#[derive(Clone, Copy, Debug, PartialEq, Eq, Structural)]
pub enum CanID {
    Extended(u32),
    Normal(u16),
}

/// A classic CAN frame: an identifier and up to eight data bytes.
#[derive(Clone, Copy, Debug, PartialEq, Eq)]
pub struct CanFrame {
    pub id: CanID,
    pub dlc: usize,
    pub data: [u8; 8],
}

/// Types that know the CAN identifier they are sent under.
pub trait ToCanID {
    fn to_can_id(&self) -> CanID;
}

/// Payload capacity of a classic CAN frame.
pub const CAN_MAX_DATA_LENGTH: usize = 8;

/// The numeric value of an identifier, whatever its width.
pub open spec fn can_id_value(id: CanID) -> u32 {
    match id {
        CanID::Extended(x) => x,
        CanID::Normal(x) => x as u32,
    }
}

impl CanFrame {
    /// Well-formed frames occupy no more than the eight bytes they have.
    pub open spec fn wf(&self) -> bool {
        self.dlc <= 8
    }

    /// The occupied bytes of the frame.
    pub open spec fn occupied(&self) -> Seq<u8> {
        self.data@.subrange(0, self.dlc as int)
    }

    /// A frame with an extended identifier holding `data`, zero-filled behind it.
    pub fn with_data(id: u32, data: &[u8]) -> (r: CanFrame)
        requires
            data@.len() <= 8,
        ensures
            r.wf(),
            r.id == CanID::Extended(id),
            r.dlc == data@.len(),
            r.occupied() == data@,
            forall|i: int| data@.len() <= i < 8 ==> r.data@[i] == 0,
    {
        let mut can_data: [u8; 8] = [0u8; 8];
        let mut i: usize = 0;
        while i < data.len()
            invariant
                i <= data@.len(),
                data@.len() <= 8,
                forall|k: int| 0 <= k < i ==> can_data@[k] == data@[k],
                forall|k: int| i <= k < 8 ==> can_data@[k] == 0,
            decreases data@.len() - i,
        {
            can_data[i] = data[i];
            i = i + 1;
        }
        let r = CanFrame { id: CanID::Extended(id), dlc: data.len(), data: can_data };
        assert(r.occupied() =~= data@);
        r
    }

    /// The largest number of data bytes a CAN frame carries.
    pub fn get_max_data_length() -> (r: usize)
        ensures
            r == CAN_MAX_DATA_LENGTH,
    {
        CAN_MAX_DATA_LENGTH
    }

    /// The occupied data bytes.
    pub fn get_data(&self) -> (r: &[u8])
        requires
            self.wf(),
        ensures
            r@ == self.occupied(),
    {
        slice_subrange(self.data.as_slice(), 0, self.dlc)
    }

    /// The identifier as a number.
    pub fn get_id(&self) -> (r: u32)
        ensures
            r == can_id_value(self.id),
    {
        match self.id {
            CanID::Extended(x) => x,
            CanID::Normal(x) => x as u32,
        }
    }
}

} // verus!
