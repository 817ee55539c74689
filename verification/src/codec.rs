//! Little-endian encoding and decoding shared by the analog devices.
//! All EVO device reports store values as 16-bit little-endian words.
use vstd::prelude::*;

verus! {

/// The value of the little-endian word whose low byte is `lo` and high byte is `hi`.
pub open spec fn le_word(lo: u8, hi: u8) -> u16 {
    (lo + 256 * hi) as u16
}

/// The low byte of `v`.
pub open spec fn low_byte(v: u16) -> u8 {
    (v % 256) as u8
}

/// The high byte of `v`.
pub open spec fn high_byte(v: u16) -> u8 {
    (v / 256) as u8
}

/// The words of `bytes` read two bytes at a time; a trailing odd byte is not read.
pub open spec fn decode_words(bytes: Seq<u8>) -> Seq<u16> {
    Seq::new(bytes.len() / 2, |i: int| le_word(bytes[2 * i], bytes[2 * i + 1]))
}

/// The bytes of `values`, each word written low byte first.
pub open spec fn encode_words(values: Seq<u16>) -> Seq<u8> {
    Seq::new(
        2 * values.len(),
        |k: int| if k % 2 == 0 { low_byte(values[k / 2]) } else { high_byte(values[k / 2]) },
    )
}

/// A little-endian word is its low byte plus 256 times its high byte, without truncation.
pub proof fn lemma_le_word_value(lo: u8, hi: u8)
    ensures
        le_word(lo, hi) == lo + 256 * hi,
        le_word(lo, hi) % 256 == lo,
        le_word(lo, hi) / 256 == hi,
{
}

/// Word `i` of a decoded buffer is byte `2i` plus 256 times byte `2i + 1`, for every whole
/// pair of bytes; a trailing odd byte gives no word.
pub proof fn lemma_decode_layout(bytes: Seq<u8>)
    ensures
        decode_words(bytes).len() == bytes.len() / 2,
        forall|i: int|
            0 <= i < bytes.len() / 2 ==> #[trigger] decode_words(bytes)[i] == bytes[2 * i] + 256
                * bytes[2 * i + 1],
{
}

/// Each word of an encoded buffer lies in two bytes, low byte first: byte `2i` plus 256 times
/// byte `2i + 1` is word `i`, and both bytes are below 256.
pub proof fn lemma_encode_layout(values: Seq<u16>)
    ensures
        encode_words(values).len() == 2 * values.len(),
        forall|i: int|
            0 <= i < values.len() ==> encode_words(values)[2 * i] + 256 * encode_words(values)[2
                * i + 1] == #[trigger] values[i],
        forall|i: int|
            0 <= i < values.len() ==> encode_words(values)[2 * i] == #[trigger] values[i] % 256,
{
    assert forall|i: int| 0 <= i < values.len() implies encode_words(values)[2 * i] + 256
        * encode_words(values)[2 * i + 1] == #[trigger] values[i] by {
        assert((2 * i) % 2 == 0 && (2 * i) / 2 == i);
        assert((2 * i + 1) % 2 == 1 && (2 * i + 1) / 2 == i);
    }
    assert forall|i: int| 0 <= i < values.len() implies encode_words(values)[2 * i]
        == #[trigger] values[i] % 256 by {
        assert((2 * i) % 2 == 0 && (2 * i) / 2 == i);
    }
}

/// The two bytes of a word give the word back.
pub proof fn lemma_word_bytes(v: u16)
    ensures
        le_word(low_byte(v), high_byte(v)) == v,
{
}

/// A word read from two bytes writes back to the same two bytes.
pub proof fn lemma_bytes_word(lo: u8, hi: u8)
    ensures
        low_byte(le_word(lo, hi)) == lo,
        high_byte(le_word(lo, hi)) == hi,
{
}

/// Decoding what was encoded gives the words back.
pub proof fn lemma_decode_encode(values: Seq<u16>)
    ensures
        decode_words(encode_words(values)) == values,
{
    let e = encode_words(values);
    let d = decode_words(e);
    assert(d.len() == values.len());
    assert forall|i: int| 0 <= i < values.len() implies d[i] == values[i] by {
        assert((2 * i) % 2 == 0 && (2 * i) / 2 == i);
        assert((2 * i + 1) % 2 == 1 && (2 * i + 1) / 2 == i);
        lemma_word_bytes(values[i]);
    }
    assert(d =~= values);
}

/// Encoding what was decoded from a buffer of even length gives the buffer back.
pub proof fn lemma_encode_decode(bytes: Seq<u8>)
    requires
        bytes.len() % 2 == 0,
    ensures
        encode_words(decode_words(bytes)) == bytes,
{
    let d = decode_words(bytes);
    let e = encode_words(d);
    assert(e.len() == bytes.len());
    assert forall|k: int| 0 <= k < bytes.len() implies e[k] == bytes[k] by {
        let i = k / 2;
        assert(0 <= i < d.len());
        lemma_bytes_word(bytes[2 * i], bytes[2 * i + 1]);
        if k % 2 == 0 {
            assert(k == 2 * i);
        } else {
            assert(k == 2 * i + 1);
        }
    }
    assert(e =~= bytes);
}

/// Reads one little-endian `u16` from the start of `bytes`.
/// Returns `None` if fewer than two bytes are available.
pub fn read_u16_le(bytes: &[u8]) -> (out: Option<u16>)
    ensures
        bytes@.len() < 2 <==> out is None,
        out matches Some(v) ==> v == le_word(bytes@[0], bytes@[1]),
        out matches Some(v) ==> v == bytes@[0] + 256 * bytes@[1],
{
    if bytes.len() < 2 {
        return None;
    }
    Some(bytes[0] as u16 + (bytes[1] as u16) * 256)
}

/// The little-endian `u16` values in `bytes`, two bytes at a time; a trailing odd byte is
/// ignored.
pub fn iter_u16_le(bytes: &[u8]) -> (out: Vec<u16>)
    ensures
        out@ == decode_words(bytes@),
        out@.len() == bytes@.len() / 2,
        forall|i: int|
            0 <= i < out@.len() ==> #[trigger] out@[i] == bytes@[2 * i] + 256 * bytes@[2 * i + 1],
{
    proof {
        lemma_decode_layout(bytes@);
    }
    let len = bytes.len();
    let n = len / 2;
    let mut out: Vec<u16> = Vec::new();
    let mut i: usize = 0;
    while i < n
        invariant
            len == bytes@.len(),
            n == len / 2,
            i <= n,
            out@.len() == i,
            forall|j: int| 0 <= j < i ==> #[trigger] out@[j] == decode_words(bytes@)[j],
        decreases n - i,
    {
        let w = bytes[2 * i] as u16 + (bytes[2 * i + 1] as u16) * 256;
        out.push(w);
        i = i + 1;
    }
    assert(out@ =~= decode_words(bytes@));
    out
}

/// Encodes 32 `u16` values into a 64-byte buffer, low byte first.
pub fn encode_u16_le_buffer(values: &[u16; 32]) -> (buf: [u8; 64])
    ensures
        buf@ == encode_words(values@),
        forall|i: int| 0 <= i < 32 ==> buf@[2 * i] + 256 * buf@[2 * i + 1] == #[trigger] values@[i],
{
    proof {
        lemma_encode_layout(values@);
    }
    let mut buf = [0u8; 64];
    let mut i: usize = 0;
    while i < 32
        invariant
            i <= 32,
            buf@.len() == 64,
            values@.len() == 32,
            forall|k: int| 0 <= k < 2 * i ==> #[trigger] buf@[k] == encode_words(values@)[k],
        decreases 32 - i,
    {
        let v = values[i];
        buf[2 * i] = (v % 256) as u8;
        buf[2 * i + 1] = (v / 256) as u8;
        proof {
            assert((2 * i as int) % 2 == 0 && (2 * i as int) / 2 == i);
            assert((2 * i as int + 1) % 2 == 1 && (2 * i as int + 1) / 2 == i);
        }
        i = i + 1;
    }
    assert(buf@ =~= encode_words(values@));
    buf
}

/// Decodes a 64-byte buffer into 32 `u16` values.
pub fn decode_u16_le_buffer(buf: &[u8; 64]) -> (values: [u16; 32])
    ensures
        values@ == decode_words(buf@),
        forall|i: int| 0 <= i < 32 ==> #[trigger] values@[i] == buf@[2 * i] + 256 * buf@[2 * i + 1],
{
    proof {
        lemma_decode_layout(buf@);
    }
    let mut values = [0u16; 32];
    let mut i: usize = 0;
    while i < 32
        invariant
            i <= 32,
            values@.len() == 32,
            buf@.len() == 64,
            forall|j: int| 0 <= j < i ==> #[trigger] values@[j] == decode_words(buf@)[j],
        decreases 32 - i,
    {
        values[i] = buf[2 * i] as u16 + (buf[2 * i + 1] as u16) * 256;
        i = i + 1;
    }
    assert(values@ =~= decode_words(buf@));
    values
}

} // verus!
