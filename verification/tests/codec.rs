use meca_hid::codec::{decode_u16_le_buffer, encode_u16_le_buffer, iter_u16_le, read_u16_le};

#[test]
fn read_u16_le_decodes_correctly() {
    assert_eq!(read_u16_le(&[0x00, 0x10]), Some(0x1000));
    assert_eq!(read_u16_le(&[0x8C, 0x00]), Some(0x008C));
    assert_eq!(read_u16_le(&[0xFF, 0xFF]), Some(0xFFFF));
    assert_eq!(read_u16_le(&[0x00, 0x00]), Some(0x0000));
}

#[test]
fn read_u16_le_rejects_short_input() {
    assert_eq!(read_u16_le(&[]), None);
    assert_eq!(read_u16_le(&[0x42]), None);
}

#[test]
fn iter_u16_le_decodes_sequence() {
    let buf = [0x00, 0x10, 0x8C, 0x00, 0xAA, 0x02];
    let values: Vec<u16> = iter_u16_le(&buf);

    assert_eq!(values, vec![0x1000, 0x008C, 0x02AA]);
}

#[test]
fn iter_u16_le_ignores_trailing_byte() {
    let buf = [0x01, 0x00, 0xFF];
    let values: Vec<u16> = iter_u16_le(&buf);

    assert_eq!(values, vec![0x0001]);
}

#[test]
fn encode_decode_roundtrip() {
    let mut original = [0u16; 32];
    original[0] = 0xF102;
    original[1] = 113;
    original[2] = 0;
    original[3] = 140;
    original[4] = 0;
    original[5] = 251;
    original[6] = 682;
    original[18] = 4096;

    let bytes = encode_u16_le_buffer(&original);
    let decoded = decode_u16_le_buffer(&bytes);

    assert_eq!(original, decoded);
}

#[test]
fn encode_decode_all_zeros() {
    let original = [0u16; 32];
    let bytes = encode_u16_le_buffer(&original);
    let decoded = decode_u16_le_buffer(&bytes);

    assert_eq!(original, decoded);
}

#[test]
fn encode_decode_all_max() {
    let original = [0xFFFFu16; 32];
    let bytes = encode_u16_le_buffer(&original);
    let decoded = decode_u16_le_buffer(&bytes);

    assert_eq!(original, decoded);
}

#[test]
fn encode_produces_correct_bytes() {
    let mut values = [0u16; 32];
    values[0] = 0xF102;
    values[1] = 0x1000;

    let bytes = encode_u16_le_buffer(&values);

    assert_eq!(bytes[0], 0x02);
    assert_eq!(bytes[1], 0xF1);
    assert_eq!(bytes[2], 0x00);
    assert_eq!(bytes[3], 0x10);
}

#[test]
fn bytes_decode_then_encode_gives_bytes_back() {
    let mut bytes = [0u8; 64];
    for (i, b) in bytes.iter_mut().enumerate() {
        *b = (i as u8).wrapping_mul(37).wrapping_add(11);
    }
    let values = decode_u16_le_buffer(&bytes);
    assert_eq!(values[0], 0x300B);
    assert_eq!(encode_u16_le_buffer(&values), bytes);
}

#[test]
fn iter_u16_le_empty_input() {
    assert_eq!(iter_u16_le(&[]), Vec::<u16>::new());
    assert_eq!(iter_u16_le(&[0x7F]), Vec::<u16>::new());
}
