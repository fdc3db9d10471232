//! Verified codec for a compact tactical air-track wire format: a one-byte
//! kind tag followed by a bit-packed body whose fields cross byte boundaries,
//! together with the fixed-point quantization policy that fills those fields.

use vstd::prelude::*;

pub mod bits;
pub mod codec;
pub mod envelope;
pub mod errors;
pub mod quant;
pub mod session;

pub use codec::J3_2AirTrack;
pub use envelope::JMessage;
pub use errors::Error;
pub use errors::QuantField;

verus! {

/// Kind tag for the air-track report message.
pub const MSG_ID_J3_2: u8 = 0x32;

/// Number of bits in the packed air-track body.
pub const BODY_BITS: usize = 117;

/// Size in bytes of the packed air-track body (117 bits padded to 15 bytes).
pub const BODY_BYTES: usize = 15;

} // verus!
