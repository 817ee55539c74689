//! MECA EVO1 load cell pedals.
//!
//! 6-byte input report holding three 16-bit little-endian axes: clutch (offset 0), brake
//! (offset 2) and throttle (offset 4). Configuration is a 64-byte feature report per channel.
use vstd::prelude::*;

use crate::codec::{iter_u16_le, le_word, lemma_le_word_value};
use crate::Error;

verus! {

/// Input report length (3 x 2 bytes).
pub const INPUT_REPORT_LEN: usize = 6;

/// Channel id of the clutch curve in the feature report.
pub const CLUTCH_DATA_ID: u16 = 0xF101;

/// Channel id of the brake curve in the feature report.
pub const BRAKE_DATA_ID: u16 = 0xF102;

/// Channel id of the throttle curve in the feature report.
pub const THROTTLE_DATA_ID: u16 = 0xF103;

/// Decoded pedal state. Each axis has a range from 0-4096 (0x0000-0x1000).
///
/// Field order matches the report: clutch (offset 0), brake (2), throttle (4).
#[derive(Debug, Clone, Copy, PartialEq, Eq, Structural)]
pub struct PedalInput {
    pub clutch: u16,
    pub brake: u16,
    pub throttle: u16,
}

/// The pedal state that the first six bytes of `buf` encode.
pub open spec fn pedal_input_of(buf: Seq<u8>) -> PedalInput {
    PedalInput {
        clutch: le_word(buf[0], buf[1]),
        brake: le_word(buf[2], buf[3]),
        throttle: le_word(buf[4], buf[5]),
    }
}

/// Each axis of the report is the full 16-bit little-endian word of its two bytes: clutch
/// from bytes 0-1, brake from bytes 2-3, throttle from bytes 4-5.
pub proof fn lemma_pedal_axes(buf: Seq<u8>)
    requires
        buf.len() >= INPUT_REPORT_LEN,
    ensures
        pedal_input_of(buf).clutch == buf[0] + 256 * buf[1],
        pedal_input_of(buf).brake == buf[2] + 256 * buf[3],
        pedal_input_of(buf).throttle == buf[4] + 256 * buf[5],
{
    lemma_le_word_value(buf[0], buf[1]);
    lemma_le_word_value(buf[2], buf[3]);
    lemma_le_word_value(buf[4], buf[5]);
}

impl Default for PedalInput {
    /// All pedals at rest.
    fn default() -> (p: Self)
        ensures
            p.clutch == 0 && p.brake == 0 && p.throttle == 0,
    {
        PedalInput { clutch: 0, brake: 0, throttle: 0 }
    }
}

impl PedalInput {
    /// Decodes the three axes from the start of the report.
    /// Returns `None` if the buffer has less than 6 bytes.
    pub fn from_report(buf: &[u8]) -> (p: Option<Self>)
        ensures
            buf@.len() < INPUT_REPORT_LEN <==> p is None,
            p matches Some(input) ==> input == pedal_input_of(buf@),
            p matches Some(input) ==> input.clutch == buf@[0] + 256 * buf@[1] && input.brake
                == buf@[2] + 256 * buf@[3] && input.throttle == buf@[4] + 256 * buf@[5],
    {
        proof {
            if buf@.len() >= INPUT_REPORT_LEN {
                lemma_pedal_axes(buf@);
            }
        }
        let axes = iter_u16_le(buf);
        if axes.len() < 3 {
            return None;
        }
        Some(PedalInput { clutch: axes[0], brake: axes[1], throttle: axes[2] })
    }

    /// Decodes an input report of which `bytes_read` bytes were received into `buf`.
    /// A report shorter than 6 bytes is an [`Error::ShortReport`].
    pub fn decode(buf: &[u8; INPUT_REPORT_LEN], bytes_read: usize) -> (r: Result<Self, Error>)
        ensures
            bytes_read < INPUT_REPORT_LEN ==> r == Err::<Self, Error>(
                (Error::ShortReport { expected: INPUT_REPORT_LEN, got: bytes_read }),
            ),
            bytes_read >= INPUT_REPORT_LEN ==> r == Ok::<Self, Error>(pedal_input_of(buf@)),
            r matches Ok(input) ==> input.clutch == buf@[0] + 256 * buf@[1] && input.brake
                == buf@[2] + 256 * buf@[3] && input.throttle == buf@[4] + 256 * buf@[5],
    {
        proof {
            lemma_pedal_axes(buf@);
        }
        if bytes_read < INPUT_REPORT_LEN {
            return Err(Error::ShortReport { expected: INPUT_REPORT_LEN, got: bytes_read });
        }
        match Self::from_report(buf) {
            Some(p) => Ok(p),
            None => Err(Error::ShortReport { expected: INPUT_REPORT_LEN, got: bytes_read }),
        }
    }
}

} // verus!
