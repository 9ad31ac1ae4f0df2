use utils_box::bits::{bit_vec_to_byte_vec, bit_vec_to_hex_string, bits_to_vec, vec_to_bits};

#[test]
fn bits_to_vec_test() {
    let received_bit_stream: u64 = 0b110101000100111010110;
    let expected_bytes_array: Vec<u8> = vec![
        1, 1, 0, 1, 0, 1, 0, 0, 0, 1, 0, 0, 1, 1, 1, 0, 1, 0, 1, 1, 0,
    ];

    let bytes = bits_to_vec(received_bit_stream, 21);

    assert_eq!(expected_bytes_array, bytes);
}

#[test]
fn bit_vec_to_hex_string_test() {
    let bit_array: Vec<u8> = vec![
        1, 1, 0, 1, 0, 1, 0, 0, 0, 1, 0, 0, 1, 1, 1, 0, 1, 0, 1, 1, 0,
    ];
    let expected_string = "D44EB0".to_string();

    let string = bit_vec_to_hex_string(&bit_array);

    assert_eq!(expected_string, string);
}

#[test]
fn bits_to_vec_pads_with_leading_zeros() {
    assert_eq!(bits_to_vec(0b101, 6), vec![0, 0, 0, 1, 0, 1]);
    assert_eq!(bits_to_vec(0b101, 2), vec![0, 1]);
    assert_eq!(bits_to_vec(5, 0), Vec::<u8>::new());
}

#[test]
fn bits_to_vec_beyond_sixty_four_bits() {
    let v = bits_to_vec(u64::MAX, 66);
    assert_eq!(v.len(), 66);
    assert_eq!(v[0], 0);
    assert_eq!(v[1], 0);
    assert!(v[2..].iter().all(|&b| b == 1));
}

#[test]
fn bit_vec_to_byte_vec_packs_and_pads() {
    assert_eq!(bit_vec_to_byte_vec(&[1, 0, 1, 0, 0, 0, 0, 1]), vec![0xA1]);
    assert_eq!(bit_vec_to_byte_vec(&[1, 1, 1]), vec![0xE0]);
    assert_eq!(
        bit_vec_to_byte_vec(&[1, 1, 1, 1, 1, 1, 1, 1, 1]),
        vec![0xFF, 0x80]
    );
    assert_eq!(bit_vec_to_byte_vec(&[]), Vec::<u8>::new());
}

#[test]
fn vec_to_bits_reads_msb_first() {
    assert_eq!(vec_to_bits(&[1, 0, 1, 1]), 0b1011);
    assert_eq!(vec_to_bits(&[]), 0);
    let bits = bits_to_vec(0b110101000100111010110, 21);
    assert_eq!(vec_to_bits(&bits), 0b110101000100111010110);
}

#[test]
fn bit_vec_to_hex_string_edges() {
    assert_eq!(bit_vec_to_hex_string(&[]), "");
    assert_eq!(bit_vec_to_hex_string(&[1, 0, 1, 0]), "A");
    assert_eq!(bit_vec_to_hex_string(&[1, 1, 1, 1, 1, 0, 0, 1]), "F9");
    assert_eq!(bit_vec_to_hex_string(&[1]), "8");
}
