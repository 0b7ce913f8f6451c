use feistel::blocks::Block128;
use feistel::blocks::Block256;
use feistel::blocks::Xorable;

fn half(first4: [u8; 4]) -> Block128 {
    let mut data: [u8; 16] = [0u8; 16];
    data[0] = first4[0];
    data[1] = first4[1];
    data[2] = first4[2];
    data[3] = first4[3];
    Block128 { data }
}

#[test]
fn split_then_merge_restores_double_block() {
    let mut data: [u8; 32] = [0u8; 32];
    let mut i: usize = 0;
    while i < 32 {
        data[i] = i as u8;
        i += 1;
    }
    let b = Block256::new(data);
    let (left, right) = b.split();
    let mut expected_left: [u8; 16] = [0u8; 16];
    let mut expected_right: [u8; 16] = [0u8; 16];
    let mut j: usize = 0;
    while j < 16 {
        expected_left[j] = j as u8;
        expected_right[j] = (j + 16) as u8;
        j += 1;
    }
    assert_eq!(left.data, expected_left);
    assert_eq!(right.data, expected_right);
    let merged = Block256::merge(&left, &right);
    assert_eq!(merged.data, data);
}

#[test]
fn merge_then_split_restores_halves() {
    let left = half([0x12, 0x34, 0x56, 0x78]);
    let right = half([0x9a, 0xbc, 0xde, 0xf0]);
    let merged = Block256::merge(&left, &right);
    let (l2, r2) = merged.split();
    assert_eq!(l2.data, left.data);
    assert_eq!(r2.data, right.data);
}

#[test]
fn block256_new_and_from_hold_the_bytes() {
    let mut data: [u8; 32] = [0u8; 32];
    data[0] = 0xab;
    data[31] = 0xcd;
    assert_eq!(Block256::new(data).data, data);
    assert_eq!(Block256::from(data).data, data);
}

#[test]
fn wrapping_add_is_bytewise_mod_256() {
    let mut a: [u8; 16] = [0u8; 16];
    let mut b: [u8; 16] = [0u8; 16];
    a[0] = 0xff;
    b[0] = 0x01;
    a[1] = 0x80;
    b[1] = 0x80;
    a[2] = 0x01;
    b[2] = 0x02;
    a[15] = 0xfe;
    b[15] = 0x03;
    let r = Block128 { data: a }.wrapping_add(&Block128 { data: b });
    let mut expected: [u8; 16] = [0u8; 16];
    expected[0] = 0x00;
    expected[1] = 0x00;
    expected[2] = 0x03;
    expected[15] = 0x01;
    assert_eq!(r.data, expected);
}

#[test]
fn bitxor_is_bytewise_xor() {
    let a = half([0xff, 0x0f, 0xaa, 0x12]);
    let b = half([0x0f, 0xff, 0x55, 0x12]);
    let r = a.bitxor(b);
    assert_eq!(r.data, half([0xf0, 0xf0, 0xff, 0x00]).data);
    let z = a.bitxor(a);
    assert_eq!(z.data, [0u8; 16]);
}

#[test]
fn xorable_integers() {
    assert_eq!(0xf0f0u16.xor(0x0ff0u16), 0xff00u16);
    assert_eq!(0xdead_beefu32.xor(0xffff_ffffu32), !0xdead_beefu32);
    assert_eq!(0x1234_5678_9abc_def0u64.xor(0u64), 0x1234_5678_9abc_def0u64);
    assert_eq!(1u128.xor(2u128), 3u128);
}

#[test]
fn from_be_u128_is_big_endian() {
    let k: u128 = 0x0102_0304_0506_0708_090a_0b0c_0d0e_0f10;
    let b = Block128::from_be_u128(k);
    let expected: [u8; 16] = [1, 2, 3, 4, 5, 6, 7, 8, 9, 10, 11, 12, 13, 14, 15, 16];
    assert_eq!(b.data, expected);
    assert_eq!(Block128::from_be_u128(0).data, [0u8; 16]);
    assert_eq!(Block128::from_be_u128(u128::MAX).data, [0xffu8; 16]);
}
