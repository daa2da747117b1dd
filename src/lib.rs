//! Transport layer of UAVCAN: bit-precise serialization of structured values,
//! fragmentation of a transfer into fixed-capacity frames and its reassembly.

pub mod bits;
pub mod can_frame;
pub mod crc;
pub mod deserializer;
pub mod disassembler;
pub mod normalize;
pub mod reassembler;
pub mod round_trip;
pub mod serializer;
pub mod tail_byte;
pub mod value;
