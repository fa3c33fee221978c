use fskey_search::rc4::{rc4_decrypt, RC4};
use fskey_search::transform::{key_material, xor_bytes, xor_data};

#[test]
fn key_material_is_little_endian_and_truncated() {
    assert_eq!(key_material(0xDEADBEEF, 1), vec![0xEF]);
    assert_eq!(key_material(0xDEADBEEF, 2), vec![0xEF, 0xBE]);
    assert_eq!(key_material(0xDEADBEEF, 3), vec![0xEF, 0xBE, 0xAD]);
    assert_eq!(key_material(0xDEADBEEF, 4), vec![0xEF, 0xBE, 0xAD, 0xDE]);
    assert_eq!(key_material(0, 4), vec![0, 0, 0, 0]);
    assert_eq!(key_material(0xFFFFFFFF, 3), vec![0xFF, 0xFF, 0xFF]);
}

#[test]
fn xor_repeats_the_four_key_bytes() {
    let data = [0x00, 0x01, 0x02, 0x03, 0x04, 0x05, 0xff];
    assert_eq!(xor_data(&data, 0x04030201), vec![0x01, 0x03, 0x01, 0x07, 0x05, 0x07, 0xfc]);
}

#[test]
fn xor_of_an_empty_buffer_is_empty() {
    assert!(xor_data(&[], 0x12345678).is_empty());
}

#[test]
fn xor_with_the_zero_key_changes_nothing() {
    let data = [9u8, 8, 7, 6, 5];
    assert_eq!(xor_data(&data, 0), data.to_vec());
}

#[test]
fn xor_twice_gives_the_buffer_back() {
    let data: Vec<u8> = (0..=255u8).collect();
    let once = xor_data(&data, 0xDEADBEEF);
    assert_ne!(once, data);
    assert_eq!(xor_data(&once, 0xDEADBEEF), data);
}

#[test]
fn xor_is_the_same_on_every_call() {
    let data = [1u8, 2, 3, 4, 5, 6, 7, 8, 9];
    assert_eq!(xor_data(&data, 0xCAFEBABE), xor_data(&data, 0xCAFEBABE));
}

#[test]
fn xor_bytes_takes_keys_of_other_lengths() {
    assert_eq!(xor_bytes(&[0x10, 0x20, 0x30], &[0x01]), vec![0x11, 0x21, 0x31]);
    assert_eq!(xor_bytes(&[0x10, 0x20, 0x30], &[0x01, 0x02]), vec![0x11, 0x22, 0x31]);
    assert_eq!(xor_data(&[0x10, 0x20, 0x30], 0x0201), xor_bytes(&[0x10, 0x20, 0x30], &[1, 2, 0, 0]));
}

#[test]
fn rc4_keystream_of_key_01_02_03_04() {
    let keystream = rc4_decrypt(&[0u8; 16], &[0x01, 0x02, 0x03, 0x04]);
    assert_eq!(
        keystream,
        vec![
            0x1c, 0xea, 0x91, 0x61, 0xee, 0xbc, 0x6f, 0x4d, 0x5c, 0xd6, 0x94, 0x32, 0x47, 0x72,
            0x78, 0x95
        ]
    );
    let plain = [0x10, 0x20, 0x30, 0x40, 0x50, 0x60, 0x70, 0x80, 0x90];
    assert_eq!(
        rc4_decrypt(&plain, &[0x01, 0x02, 0x03, 0x04]),
        vec![0x0c, 0xca, 0xa1, 0x21, 0xbe, 0xdc, 0x1f, 0xcd, 0xcc]
    );
}

#[test]
fn rc4_keystream_of_the_forty_bit_key() {
    assert_eq!(
        rc4_decrypt(&[0u8; 16], &[0x01, 0x02, 0x03, 0x04, 0x05]),
        vec![
            0xb2, 0x39, 0x63, 0x05, 0xf0, 0x3d, 0xc0, 0x27, 0xcc, 0xc3, 0x52, 0x4a, 0x0a, 0x11,
            0x18, 0xa8
        ]
    );
}

#[test]
fn rc4_textbook_vectors() {
    assert_eq!(
        rc4_decrypt(b"Plaintext", b"Key"),
        vec![0xbb, 0xf3, 0x16, 0xe8, 0xd9, 0x40, 0xaf, 0x0a, 0xd3]
    );
    assert_eq!(rc4_decrypt(b"pedia", b"Wiki"), vec![0x10, 0x21, 0xbf, 0x04, 0x20]);
    assert_eq!(
        rc4_decrypt(b"Attack at dawn", b"Secret"),
        vec![
            0x45, 0xa0, 0x1f, 0x64, 0x5f, 0xc3, 0x5b, 0x38, 0x35, 0x52, 0x54, 0x4b, 0x9b, 0xf5
        ]
    );
}

#[test]
fn rc4_twice_gives_the_buffer_back() {
    let data: Vec<u8> = (0..200u8).collect();
    let key = [0xAA, 0x55, 0x01];
    let once = rc4_decrypt(&data, &key);
    assert_ne!(once, data);
    assert_eq!(rc4_decrypt(&once, &key), data);
}

#[test]
fn rc4_of_an_empty_buffer_is_empty() {
    assert!(rc4_decrypt(&[], &[0x42]).is_empty());
}

#[test]
fn rc4_is_the_same_on_every_call() {
    let data = [3u8; 50];
    assert_eq!(rc4_decrypt(&data, &[1, 2]), rc4_decrypt(&data, &[1, 2]));
}

#[test]
fn rc4_cipher_goes_on_where_it_stopped() {
    let data: Vec<u8> = (0..64u8).collect();
    let whole = rc4_decrypt(&data, &[0x01, 0x02, 0x03, 0x04]);
    let mut cipher = RC4::new(&[0x01, 0x02, 0x03, 0x04]);
    let mut pieces = cipher.decrypt(&data[..20]);
    pieces.extend(cipher.decrypt(&data[20..]));
    assert_eq!(pieces, whole);
}

#[test]
fn rc4_fresh_ciphers_do_not_share_state() {
    let mut first = RC4::new(&[0x07]);
    let a = first.decrypt(&[0u8; 8]);
    let mut second = RC4::new(&[0x07]);
    let b = second.decrypt(&[0u8; 8]);
    assert_eq!(a, b);
    assert_ne!(first.decrypt(&[0u8; 8]), a);
}
