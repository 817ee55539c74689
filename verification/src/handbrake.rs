//! MECA EVO HB load cell handbrake.
//!
//! 2-byte input report holding a single 16-bit little-endian axis. Shares the curve,
//! deadzone and feature report layout with the pedals.
use vstd::prelude::*;

use crate::codec::{
    decode_u16_le_buffer, decode_words, encode_u16_le_buffer, encode_words, high_byte,
    lemma_decode_encode, lemma_le_word_value, lemma_word_bytes, le_word, low_byte, read_u16_le,
};
use crate::curve::{
    lemma_curve_len, lemma_report_layout, lemma_report_roundtrip, report_points, report_words, Curve, Point,
};
use crate::transport::{framed, lemma_unframe_frame, unframed};
use crate::Error;

verus! {

/// Input report length (1 x 2 bytes).
pub const INPUT_REPORT_LEN: usize = 2;

/// Channel id of the handbrake curve in the feature report.
pub const DATA_ID: u16 = 0xF101;

/// The curve that the 64-byte feature payload `bytes` carries.
pub open spec fn feature_curve_points(bytes: Seq<u8>) -> Seq<Point> {
    report_points(decode_words(bytes))
}

/// The 64-byte feature payload that writes the curve `pts` to the handbrake.
pub open spec fn feature_bytes(pts: Seq<Point>) -> Seq<u8> {
    encode_words(report_words(DATA_ID, pts))
}

/// Converts the feature payload read from the handbrake to a curve.
pub fn curve_from_feature(bytes: &[u8; 64]) -> (r: Result<Curve, Error>)
    ensures
        r matches Ok(c) && c@ == feature_curve_points(bytes@),
        r matches Ok(c) && forall|i: int|
            0 <= i < 9 ==> #[trigger] c@[i].x == bytes@[2 + 4 * i] + 256 * bytes@[3 + 4 * i]
                && c@[i].y == bytes@[4 + 4 * i] + 256 * bytes@[5 + 4 * i],
{
    proof {
        lemma_feature_layout(seq![Point { x: 0, y: 0 }; 9], bytes@);
    }
    let data = decode_u16_le_buffer(bytes);
    match Curve::from_report(&data) {
        Some(c) => Ok(c),
        None => Err(Error::ShortReport { expected: 19, got: data.len() }),
    }
}

/// The feature payload that writes `curve` to the handbrake.
pub fn feature_from_curve(curve: &Curve) -> (bytes: [u8; 64])
    ensures
        bytes@ == feature_bytes(curve@),
        bytes@[0] + 256 * bytes@[1] == DATA_ID,
        forall|i: int|
            0 <= i < 9 ==> bytes@[2 + 4 * i] + 256 * bytes@[3 + 4 * i] == #[trigger] curve@[i].x
                && bytes@[4 + 4 * i] + 256 * bytes@[5 + 4 * i] == curve@[i].y,
{
    let report = curve.to_report(DATA_ID);
    let bytes = encode_u16_le_buffer(&report);
    proof {
        lemma_curve_len(curve);
        lemma_feature_layout(curve@, bytes@);
    }
    bytes
}

/// Decodes an input report of which `bytes_read` bytes were received into `buf`.
/// A report shorter than 2 bytes is an [`Error::ShortReport`].
pub fn decode_input(buf: &[u8; INPUT_REPORT_LEN], bytes_read: usize) -> (r: Result<u16, Error>)
    ensures
        bytes_read < INPUT_REPORT_LEN ==> r == Err::<u16, Error>(
            (Error::ShortReport { expected: INPUT_REPORT_LEN, got: bytes_read }),
        ),
        bytes_read >= INPUT_REPORT_LEN ==> r == Ok::<u16, Error>(le_word(buf@[0], buf@[1])),
        r matches Ok(v) ==> v == buf@[0] + 256 * buf@[1],
{
    proof {
        lemma_le_word_value(buf@[0], buf@[1]);
    }
    if bytes_read < INPUT_REPORT_LEN {
        return Err(Error::ShortReport { expected: INPUT_REPORT_LEN, got: bytes_read });
    }
    match read_u16_le(buf) {
        Some(v) => Ok(v),
        None => Err(Error::ShortReport { expected: INPUT_REPORT_LEN, got: bytes_read }),
    }
}

/// Reading back the feature payload written for a curve gives the same curve.
pub proof fn lemma_feature_roundtrip(pts: Seq<Point>)
    requires
        pts.len() == 9,
    ensures
        feature_curve_points(feature_bytes(pts)) == pts,
{
    lemma_decode_encode(report_words(DATA_ID, pts));
    lemma_report_roundtrip(DATA_ID, pts);
}

/// A curve written to the handbrake as a framed feature report reads back as the same curve.
pub proof fn lemma_write_read_curve(pts: Seq<Point>)
    requires
        pts.len() == 9,
    ensures
        feature_curve_points(unframed(framed(feature_bytes(pts)))) == pts,
{
    lemma_unframe_frame(feature_bytes(pts));
    lemma_feature_roundtrip(pts);
}

/// Byte layout of the handbrake's feature payload: the channel id in bytes 0-1, then point
/// `i`'s x in bytes `2 + 4i`, `3 + 4i` and its y in bytes `4 + 4i`, `5 + 4i`, each low byte
/// first; reading the payload takes point `i` from the same bytes.
pub proof fn lemma_feature_layout(pts: Seq<Point>, bytes: Seq<u8>)
    requires
        pts.len() == 9,
        bytes.len() == 64,
    ensures
        feature_bytes(pts).len() == 64,
        feature_bytes(pts)[0] + 256 * feature_bytes(pts)[1] == DATA_ID,
        forall|i: int|
            0 <= i < 9 ==> feature_bytes(pts)[2 + 4 * i] + 256 * feature_bytes(pts)[3 + 4 * i]
                == #[trigger] pts[i].x && feature_bytes(pts)[4 + 4 * i] + 256 * feature_bytes(
                pts,
            )[5 + 4 * i] == pts[i].y,
        forall|i: int|
            0 <= i < 9 ==> #[trigger] feature_curve_points(bytes)[i].x == bytes[2 + 4 * i] + 256
                * bytes[3 + 4 * i] && feature_curve_points(bytes)[i].y == bytes[4 + 4 * i] + 256
                * bytes[5 + 4 * i],
{
    let w = report_words(DATA_ID, pts);
    lemma_report_layout(DATA_ID, pts);
    let e = encode_words(w);
    assert forall|j: int| 0 <= j < 32 implies e[2 * j] + 256 * e[2 * j + 1] == #[trigger] w[j] by {
        assert((2 * j) % 2 == 0 && (2 * j) / 2 == j);
        assert((2 * j + 1) % 2 == 1 && (2 * j + 1) / 2 == j);
        lemma_word_bytes(w[j]);
        lemma_le_word_value(low_byte(w[j]), high_byte(w[j]));
    }
    assert(e[0] + 256 * e[1] == w[0]);
    assert forall|i: int| 0 <= i < 9 implies e[2 + 4 * i] + 256 * e[3 + 4 * i] == #[trigger] pts[i].x
        && e[4 + 4 * i] + 256 * e[5 + 4 * i] == pts[i].y by {
        assert(w[1 + 2 * i] == pts[i].x);
        assert(w[2 + 2 * i] == pts[i].y);
        assert(e[2 * (1 + 2 * i)] + 256 * e[2 * (1 + 2 * i) + 1] == w[1 + 2 * i]);
        assert(e[2 * (2 + 2 * i)] + 256 * e[2 * (2 + 2 * i) + 1] == w[2 + 2 * i]);
    }
    let d = decode_words(bytes);
    assert forall|i: int| 0 <= i < 9 implies #[trigger] feature_curve_points(bytes)[i].x == bytes[2
        + 4 * i] + 256 * bytes[3 + 4 * i] && feature_curve_points(bytes)[i].y == bytes[4 + 4 * i]
        + 256 * bytes[5 + 4 * i] by {
        assert(d[1 + 2 * i] == le_word(bytes[2 * (1 + 2 * i)], bytes[2 * (1 + 2 * i) + 1]));
        assert(d[2 + 2 * i] == le_word(bytes[2 * (2 + 2 * i)], bytes[2 * (2 + 2 * i) + 1]));
        lemma_le_word_value(bytes[2 + 4 * i], bytes[3 + 4 * i]);
        lemma_le_word_value(bytes[4 + 4 * i], bytes[5 + 4 * i]);
    }
}

} // verus!
