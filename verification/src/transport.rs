//! Framing of the 64-byte feature report that configures pedals and handbrake.
//!
//! The HID layer expects the report id (0) in byte 0 of the buffer: a feature report travels
//! as 65 bytes, the id followed by the 64-byte payload.
use vstd::prelude::*;

use crate::Error;

verus! {

/// Length of the feature report payload.
pub const FEATURE_LEN: usize = 64;

/// Length of a framed feature report: report id and payload.
pub const FRAMED_FEATURE_LEN: usize = 65;

/// The framed report: the report id 0 followed by `payload`.
pub open spec fn framed(payload: Seq<u8>) -> Seq<u8> {
    seq![0u8] + payload
}

/// The payload that a framed feature report carries: all but its first byte.
pub open spec fn unframed(buf: Seq<u8>) -> Seq<u8> {
    buf.subrange(1, buf.len() as int)
}

/// Frames `payload` for SET_REPORT: report id 0 in byte 0, the payload in bytes 1-64.
pub fn frame_feature_report(payload: &[u8; FEATURE_LEN]) -> (buf: [u8; FRAMED_FEATURE_LEN])
    ensures
        buf@ == framed(payload@),
{
    let mut buf = [0u8; FRAMED_FEATURE_LEN];
    let mut i: usize = 0;
    while i < FEATURE_LEN
        invariant
            i <= FEATURE_LEN,
            buf@.len() == FRAMED_FEATURE_LEN,
            payload@.len() == FEATURE_LEN,
            buf@[0] == 0,
            forall|k: int| 0 <= k < i ==> #[trigger] buf@[k + 1] == payload@[k],
        decreases FEATURE_LEN - i,
    {
        buf[i + 1] = payload[i];
        i = i + 1;
    }
    assert forall|k: int| 0 <= k < FRAMED_FEATURE_LEN implies buf@[k] == framed(payload@)[k] by {
        if k > 0 {
            assert(buf@[(k - 1) + 1] == payload@[k - 1]);
        }
    }
    assert(buf@ =~= framed(payload@));
    buf
}

/// The payload of a feature report of which `bytes_read` bytes were received by GET_REPORT
/// into `buf`. Fewer than 65 bytes is an [`Error::ShortReport`].
pub fn unframe_feature_report(buf: &[u8; FRAMED_FEATURE_LEN], bytes_read: usize) -> (r: Result<
    [u8; FEATURE_LEN],
    Error,
>)
    ensures
        bytes_read < FRAMED_FEATURE_LEN ==> r == Err::<[u8; FEATURE_LEN], Error>(
            (Error::ShortReport { expected: FRAMED_FEATURE_LEN, got: bytes_read }),
        ),
        bytes_read >= FRAMED_FEATURE_LEN ==> (r matches Ok(payload) && payload@ == unframed(buf@)),
{
    if bytes_read < FRAMED_FEATURE_LEN {
        return Err(Error::ShortReport { expected: FRAMED_FEATURE_LEN, got: bytes_read });
    }
    let mut payload = [0u8; FEATURE_LEN];
    let mut i: usize = 0;
    while i < FEATURE_LEN
        invariant
            i <= FEATURE_LEN,
            buf@.len() == FRAMED_FEATURE_LEN,
            payload@.len() == FEATURE_LEN,
            forall|k: int| 0 <= k < i ==> #[trigger] payload@[k] == buf@[k + 1],
        decreases FEATURE_LEN - i,
    {
        payload[i] = buf[i + 1];
        i = i + 1;
    }
    assert(payload@ =~= unframed(buf@));
    Ok(payload)
}

/// Unframing a framed payload gives the payload back.
pub proof fn lemma_unframe_frame(payload: Seq<u8>)
    ensures
        unframed(framed(payload)) == payload,
        framed(payload).len() == payload.len() + 1,
{
    assert(unframed(framed(payload)) =~= payload);
}

} // verus!
