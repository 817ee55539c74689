//! MECA EVO SQ sequential shifter.
//!
//! A digital device: 1-byte input report with two button bits and no configuration.
//! Bit 0 = upshift (pull), bit 1 = downshift (push away).
use vstd::prelude::*;

use crate::Error;

verus! {

/// Bit of the upshift button.
pub const UPSHIFT_BIT: u8 = 0x01;

/// Bit of the downshift button.
pub const DOWNSHIFT_BIT: u8 = 0x02;

/// The shifter's current state.
#[derive(Debug, Clone, Copy, PartialEq, Eq, Structural)]
pub struct Shift {
    /// Lever pulled towards the driver (upshift).
    pub up: bool,
    /// Lever pushed away (downshift).
    pub down: bool,
}

impl Default for Shift {
    /// The idle lever.
    fn default() -> (s: Self)
        ensures
            !s.up && !s.down,
    {
        Shift { up: false, down: false }
    }
}

impl Shift {
    /// Decodes the state from the input report byte.
    pub fn from_byte(byte: u8) -> (s: Self)
        ensures
            s.up == (byte & UPSHIFT_BIT != 0),
            s.down == (byte & DOWNSHIFT_BIT != 0),
            s.up == (byte % 2 == 1),
            s.down == ((byte / 2) % 2 == 1),
    {
        proof {
            assert((byte & 1u8 != 0) == (byte % 2 == 1)) by (bit_vector);
            assert((byte & 2u8 != 0) == ((byte / 2) % 2 == 1)) by (bit_vector);
        }
        Shift { up: byte & UPSHIFT_BIT != 0, down: byte & DOWNSHIFT_BIT != 0 }
    }

    /// Decodes an input report of which `bytes_read` bytes were received into `buf`.
    /// An empty report is an [`Error::ShortReport`].
    pub fn decode(buf: &[u8; 1], bytes_read: usize) -> (r: Result<Self, Error>)
        ensures
            bytes_read < 1 ==> r == Err::<Self, Error>(
                (Error::ShortReport { expected: 1, got: bytes_read }),
            ),
            bytes_read >= 1 ==> r == Ok::<Self, Error>(
                (Shift { up: buf@[0] % 2 == 1, down: (buf@[0] / 2) % 2 == 1 }),
            ),
    {
        if bytes_read < 1 {
            return Err(Error::ShortReport { expected: 1, got: bytes_read });
        }
        Ok(Self::from_byte(buf[0]))
    }
}

} // verus!
