use salsa20::{u8_to_u32, xor_from_slice};

fn check_u8_to_u32(bytes: &[u8], expected_values: &[u32]) {
    let mut values = [0];
    u8_to_u32(&bytes, &mut values);
    assert_eq!(values, expected_values);
}

#[test]
fn u8_to_u32_test() {
    check_u8_to_u32(&[0, 0, 0, 0], &[0]);
    check_u8_to_u32(&[1, 0, 0, 0], &[1]);
    check_u8_to_u32(&[1, 2, 3, 4], &[67305985]);
    check_u8_to_u32(&[1, 2, 3, 4, 5], &[67305985]);
}

fn check_xor_from_slice(to: &mut [u8], from: &[u8], expected: &[u8]) {
    xor_from_slice(to, from);
    assert_eq!(to, expected);
}

#[test]
fn xor_from_slice_test() {
    check_xor_from_slice(&mut [0, 0, 0, 0], &[0, 0, 0, 0], &[0, 0, 0, 0]);
    check_xor_from_slice(&mut [0, 0, 0, 1], &[0, 0, 0, 0], &[0, 0, 0, 1]);
    check_xor_from_slice(&mut [1, 0, 1, 0], &[1, 1, 0, 0], &[0, 1, 1, 0]);
    check_xor_from_slice(&mut [1, 2, 3, 4], &[5, 6, 7, 8], &[4, 4, 4, 12]);
    check_xor_from_slice(&mut [1, 2, 3, 4, 0, 0], &[5, 6, 7, 8], &[4, 4, 4, 12, 0, 0]);
}

#[test]
fn u8_to_u32_fills_several_words() {
    let mut values = [0u32; 2];
    u8_to_u32(&[0xff, 0, 0, 0x80, 1, 2, 3, 4], &mut values);
    assert_eq!(values, [0x8000_00ff, 0x0403_0201]);
}

#[test]
fn xor_from_slice_stops_at_shorter_source() {
    let mut to = [0xffu8, 0x0f, 0xf0];
    xor_from_slice(&mut to, &[0x0f]);
    assert_eq!(to, [0xf0, 0x0f, 0xf0]);
}
