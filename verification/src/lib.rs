//! Typed, byte-order-aware reads and non-consuming peeks over an in-memory
//! byte source, plus a bulk path for plain-old-data values.

use vstd::prelude::*;

pub mod error;
pub mod byte_order;
pub mod text;
pub mod binary_reader;
pub mod binary_interpreter;
pub mod pod;

verus! {

/// The order in which the bytes of a multi-byte scalar are stored. It is
/// chosen anew for every read, never kept on the source.
#[derive(Debug, Clone, Copy, PartialEq, Eq, Structural)]
pub enum Endian {
    /// Most significant byte first.
    BigEndian,
    /// Network byte order: another name for big-endian.
    NetworkEndian,
    /// Least significant byte first.
    LittleEndian,
    /// Whichever of the two the executing machine uses.
    NativeEndian,
}

} // verus!
