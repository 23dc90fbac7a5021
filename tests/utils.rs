use dns_server::utils::{
    concat_four_u8s, concat_two_u8s, extract_next_sixteen_bits_from_buffer,
    extract_next_thirty_two_bits_from_buffer, push_u16_to_u8_vec, push_u32_to_u8_vec,
    split_two_bytes,
};

#[test]
fn test_extract_next_sixteen_bits_from_buffer() {
    let buffer = &[0b01110101, 0b10110100, 0b10011101, 0b00011101];
    let (result, rest) = extract_next_sixteen_bits_from_buffer(buffer);
    assert_eq!(0b0111010110110100, result);
    assert_eq!(&[0b10011101, 0b00011101], rest);
}

#[test]
fn test_concat_two_u8s() {
    let (a, b) = (0b01110101, 0b10110100);
    let expected = 0b0111010110110100; // manual concatenation of the numbers above

    assert_eq!(expected, concat_two_u8s(a, b));
}

#[test]
fn test_extract_next_thirty_two_bits_from_buffer() {
    let buffer = &[
        0b01110101,
        0b10110100,
        0b10011101,
        0b00011101,
        0b11111101,
        0b000100001,
    ];
    let (result, rest) = extract_next_thirty_two_bits_from_buffer(buffer);
    assert_eq!(0b01110101101101001001110100011101, result);
    assert_eq!(&[0b11111101, 0b000100001], rest);
}

#[test]
fn test_concat_four_u8s() {
    let (a, b, c, d) = (0b01110101, 0b10110100, 0b10011101, 0b00011101);
    let expected = 0b01110101101101001001110100011101; // manual concatenation of the numbers above

    assert_eq!(expected, concat_four_u8s(a, b, c, d));
}

#[test]
fn test_split_two_bytes() {
    let n = 0b0101101011010111;
    let expected = (0b01011010, 0b11010111);

    assert_eq!(expected, split_two_bytes(n));
}

#[test]
fn push_words_big_endian() {
    let mut v = vec![9];
    push_u16_to_u8_vec(&mut v, 0x1234);
    push_u32_to_u8_vec(&mut v, 0xA1B2C3D4);
    assert_eq!(vec![9, 0x12, 0x34, 0xA1, 0xB2, 0xC3, 0xD4], v);
}
