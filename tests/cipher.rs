use salsa20::{Error, Salsa20};

const KEY_16: [u8; 16] = [1, 2, 3, 4, 5, 6, 7, 8, 9, 10, 11, 12, 13, 14, 15, 16];

const KEY_32: [u8; 32] = [
    1, 2, 3, 4, 5, 6, 7, 8, 9, 10, 11, 12, 13, 14, 15, 16, 201, 202,
    203, 204, 205, 206, 207, 208, 209, 210, 211, 212, 213, 214, 215, 216
];

const NONCE: [u8; 8] = [101, 102, 103, 104, 105, 106, 107, 108];

fn test_counter() -> u64 {
    u64::from_le_bytes([109, 110, 111, 112, 113, 114, 115, 116])
}

fn check_generate_with_overflow(key: &[u8], expected_data: [u8; 64]) {
    let mut salsa = Salsa20::new(&key, &NONCE, test_counter()).unwrap();

    let mut buffer = [0; 64];
    salsa.generate(&mut buffer[..8]);
    salsa.generate(&mut buffer[8..17]);
    salsa.generate(&mut buffer[17..29]);
    salsa.generate(&mut buffer[29..64]);
    assert_eq!(buffer.to_vec(), expected_data.to_vec());
}

#[test]
fn generate_with_overflow_test() {
    check_generate_with_overflow(&KEY_16, [
        39, 173, 46, 248, 30, 200, 82, 17, 48, 67, 254, 239, 37, 18, 13,
        247, 241, 200, 61, 144, 10, 55, 50, 185, 6, 47, 246, 253, 143, 86,
        187, 225, 134, 85, 110, 246, 161, 163, 43, 235, 231, 94, 171, 51,
        145, 214, 112, 29, 14, 232, 5, 16, 151, 140, 183, 141, 171, 9, 122,
        181, 104, 182, 177, 193
    ]);

    check_generate_with_overflow(&KEY_32, [
        69, 37, 68, 39, 41, 15, 107, 193, 255, 139, 122, 6, 170, 233, 217,
        98, 89, 144, 182, 106, 21, 51, 200, 65, 239, 49, 222, 34, 215, 114,
        40, 126, 104, 197, 7, 225, 197, 153, 31, 2, 102, 78, 76, 176, 84,
        245, 246, 184, 177, 160, 133, 130, 6, 72, 149, 119, 192, 195, 132,
        236, 234, 103, 246, 74
    ]);
}

fn check_encrypt_with_overflow(key: &[u8], expected_data: [u8; 64]) {
    let mut salsa = Salsa20::new(&key, &NONCE, test_counter()).unwrap();

    let mut buffer = [1; 64];
    salsa.encrypt(&mut buffer[..8]);
    salsa.encrypt(&mut buffer[8..17]);
    salsa.encrypt(&mut buffer[17..29]);
    salsa.encrypt(&mut buffer[29..64]);
    assert_eq!(buffer.to_vec(), expected_data.to_vec());
}

#[test]
fn encrypt_with_overflow_test() {
    check_encrypt_with_overflow(&KEY_16, [
        38, 172, 47, 249, 31, 201, 83, 16, 49, 66, 255, 238, 36, 19, 12,
        246, 240, 201, 60, 145, 11, 54, 51, 184, 7, 46, 247, 252, 142, 87,
        186, 224, 135, 84, 111, 247, 160, 162, 42, 234, 230, 95, 170, 50,
        144, 215, 113, 28, 15, 233, 4, 17, 150, 141, 182, 140, 170, 8, 123,
        180, 105, 183, 176, 192
    ]);

    check_encrypt_with_overflow(&KEY_32, [
        68, 36, 69, 38, 40, 14, 106, 192, 254, 138, 123, 7, 171, 232, 216,
        99, 88, 145, 183, 107, 20, 50, 201, 64, 238, 48, 223, 35, 214, 115,
        41, 127, 105, 196, 6, 224, 196, 152, 30, 3, 103, 79, 77, 177, 85,
        244, 247, 185, 176, 161, 132, 131, 7, 73, 148, 118, 193, 194, 133,
        237, 235, 102, 247, 75
    ]);
}

fn keystream(key: &[u8], counter: u64, n: usize) -> Vec<u8> {
    let mut salsa = Salsa20::new(key, &NONCE, counter).unwrap();
    let mut out = vec![0u8; n];
    salsa.generate(&mut out);
    out
}

fn keystream_in_parts(key: &[u8], counter: u64, parts: &[usize]) -> Vec<u8> {
    let mut salsa = Salsa20::new(key, &NONCE, counter).unwrap();
    let mut out = Vec::new();
    for &len in parts {
        let mut part = vec![0u8; len];
        salsa.generate(&mut part);
        out.extend_from_slice(&part);
    }
    out
}

#[test]
fn same_parameters_give_same_keystream() {
    assert_eq!(keystream(&KEY_16, 5, 300), keystream(&KEY_16, 5, 300));
    assert_eq!(keystream(&KEY_32, 5, 300), keystream(&KEY_32, 5, 300));
}

#[test]
fn uneven_parts_match_one_request() {
    let whole = keystream(&KEY_32, test_counter(), 1024);
    assert_eq!(keystream_in_parts(&KEY_32, test_counter(), &[7, 252, 679, 86]), whole);
    assert_eq!(keystream_in_parts(&KEY_32, test_counter(), &[0, 64, 0, 1, 63, 128, 768]), whole);
}

#[test]
fn one_byte_parts_match_one_request() {
    let whole = keystream(&KEY_16, 0, 300);
    assert_eq!(keystream_in_parts(&KEY_16, 0, &[1; 300]), whole);
}

#[test]
fn sixty_five_then_sixty_three_match_one_request() {
    let whole = keystream(&KEY_16, 0, 128);
    assert_eq!(keystream_in_parts(&KEY_16, 0, &[65, 63]), whole);
}

#[test]
fn encrypt_twice_restores_plaintext() {
    let plaintext: Vec<u8> = (0..200u32).map(|i| (i * 7 % 251) as u8).collect();
    let mut buffer = plaintext.clone();
    Salsa20::new(&KEY_32, &NONCE, 9).unwrap().encrypt(&mut buffer);
    assert_ne!(buffer, plaintext);
    Salsa20::new(&KEY_32, &NONCE, 9).unwrap().encrypt(&mut buffer);
    assert_eq!(buffer, plaintext);
}

#[test]
fn encrypt_xors_the_keystream() {
    let ks = keystream(&KEY_16, 3, 100);
    let mut buffer: Vec<u8> = (0..100u8).collect();
    Salsa20::new(&KEY_16, &NONCE, 3).unwrap().encrypt(&mut buffer);
    for i in 0..100 {
        assert_eq!(buffer[i], ks[i] ^ (i as u8));
    }
}

fn check_seek(start: u64, target: u64) {
    let mut salsa = Salsa20::new(&KEY_16, &NONCE, start).unwrap();
    let mut skipped = [0u8; 128];
    salsa.generate(&mut skipped);
    salsa.set_counter(target);
    let mut block = [0u8; 64];
    salsa.generate(&mut block);
    assert_eq!(block.to_vec(), keystream(&KEY_16, target, 64));
}

#[test]
fn seek_matches_new_cipher() {
    check_seek(0, 0);
    check_seek(0, 77);
    check_seek(0, 0xffff_ffff);
    check_seek(0, 0x1_0000_0000);
    check_seek(0xffff_fffe, 0x1_0000_0001);
    check_seek(0x1_0000_0005, 3);
    check_seek(0x1234_5678_9abc_def0, 0x0fed_cba9_8765_4321);
    check_seek(5, u64::MAX);
}

#[test]
fn seek_keeps_leftover_bytes() {
    let first = keystream(&KEY_16, 0, 64);
    let target = keystream(&KEY_16, 1000, 64);
    let mut salsa = Salsa20::new(&KEY_16, &NONCE, 0).unwrap();
    let mut head = [0u8; 10];
    salsa.generate(&mut head);
    salsa.set_counter(1000);
    let mut rest = [0u8; 60];
    salsa.generate(&mut rest);
    assert_eq!(&rest[..54], &first[10..]);
    assert_eq!(&rest[54..], &target[..6]);
}

#[test]
fn counter_crosses_high_word_boundary() {
    let mut salsa = Salsa20::new(&[0; 16], &[0; 8], 0xffff_ffff).unwrap();
    let mut across = [0u8; 128];
    salsa.generate(&mut across);
    assert_eq!(&across[64..80], &[109, 42, 189, 150, 154, 158, 126, 125, 221, 236, 91, 54, 152, 210, 200, 142]);

    let mut fresh = Salsa20::new(&[0; 16], &[0; 8], 0x1_0000_0000).unwrap();
    let mut block = [0u8; 64];
    fresh.generate(&mut block);
    assert_eq!(&across[64..], &block[..]);
}

#[test]
fn counter_wraps_at_the_top() {
    let mut salsa = Salsa20::new(&[0; 16], &[0; 8], u64::MAX).unwrap();
    let mut buffer = [0u8; 128];
    salsa.generate(&mut buffer);
    assert_eq!(&buffer[..16], &[95, 84, 41, 242, 225, 114, 203, 215, 170, 86, 189, 45, 50, 14, 220, 8]);
    assert_eq!(&buffer[64..80], &[101, 19, 173, 174, 207, 235, 18, 76, 28, 190, 107, 218, 239, 105, 11, 79]);
}

#[test]
fn both_key_sizes_give_full_blocks_that_differ() {
    let mut short = [0u8; 64];
    let mut long = [0u8; 64];
    Salsa20::new(&[3u8; 16], &NONCE, 0).unwrap().generate(&mut short);
    Salsa20::new(&[3u8; 32], &NONCE, 0).unwrap().generate(&mut long);
    assert_ne!(short, long);
    assert_ne!(short, [0u8; 64]);
    assert_ne!(long, [0u8; 64]);
}

#[test]
fn zero_key_and_nonce_block() {
    let mut block = [0u8; 64];
    Salsa20::new(&[0; 16], &[0; 8], 0).unwrap().generate(&mut block);
    assert_eq!(block.to_vec(), vec![
        101, 19, 173, 174, 207, 235, 18, 76, 28, 190, 107, 218, 239, 105, 11, 79,
        251, 0, 176, 252, 172, 227, 60, 232, 6, 121, 43, 180, 20, 128, 25, 152,
        52, 191, 177, 207, 221, 9, 88, 2, 198, 233, 94, 37, 16, 2, 152, 154,
        194, 42, 229, 136, 211, 42, 231, 147, 32, 217, 189, 119, 50, 224, 3, 56
    ]);
}

#[test]
fn zero_key_32_and_nonce_block() {
    let mut block = [0u8; 16];
    Salsa20::new(&[0; 32], &[0; 8], 0).unwrap().generate(&mut block);
    assert_eq!(block, [154, 151, 246, 91, 155, 76, 114, 27, 150, 10, 103, 33, 69, 252, 168, 212]);
}

#[test]
fn empty_request_changes_nothing() {
    let mut salsa = Salsa20::new(&KEY_16, &NONCE, 0).unwrap();
    let mut empty: [u8; 0] = [];
    salsa.generate(&mut empty);
    salsa.encrypt(&mut empty);
    let mut block = [0u8; 64];
    salsa.generate(&mut block);
    assert_eq!(block.to_vec(), keystream(&KEY_16, 0, 64));

    let mut head = [0u8; 5];
    salsa.generate(&mut head);
    salsa.generate(&mut empty);
    let mut tail = [0u8; 59];
    salsa.generate(&mut tail);
    assert_eq!(&tail[..], &keystream(&KEY_16, 1, 64)[5..]);
}

#[test]
fn whole_blocks_then_tail() {
    let whole = keystream(&KEY_32, 11, 64 * 3 + 20);
    assert_eq!(keystream_in_parts(&KEY_32, 11, &[64, 128, 20]), whole);
    assert_eq!(keystream_in_parts(&KEY_32, 11, &[20, 64 * 3]), whole);
}

#[test]
fn invalid_key_sizes_are_rejected() {
    for len in [0usize, 1, 15, 17, 24, 31, 33, 64] {
        let key = vec![0u8; len];
        assert!(matches!(Salsa20::new(&key, &NONCE, 0), Err(Error::InvalidKeySize)));
    }
    assert!(Salsa20::new(&[0u8; 16], &NONCE, 0).is_ok());
    assert!(Salsa20::new(&[0u8; 32], &NONCE, 0).is_ok());
}
