//! Failure taxonomy of the codec. All failures are returned as values;
//! nothing panics and no partial output is ever handed back.

use vstd::prelude::*;

verus! {

/// The field whose physical input, after scaling, would not fit the width
/// of its wire-format code.
#[derive(Debug, Clone, Copy, PartialEq, Eq, Structural)]
pub enum QuantField {
    Latitude,
    Longitude,
    Altitude,
}

/// Failures of the codec.
#[derive(Debug, Clone, Copy, PartialEq, Eq, Structural)]
pub enum Error {
    /// The input buffer holds fewer bits than the declared layout requires:
    /// `ShortBuffer(needed_bits, available_bits)`.
    ShortBuffer(usize, usize),
    /// The envelope tag byte is not registered to any body codec.
    UnsupportedKind(u8),
    /// A physical input value, after scaling, falls outside its target field.
    QuantizationOverflow(QuantField),
}

} // verus!
