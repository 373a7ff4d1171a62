use tribles_txn::aggregate::{hash_combine, hash_equal, hash_update, hash_xor};
use tribles_txn::error::CodecError;

fn h(seed: u8, width: usize) -> Vec<u8> {
    (0..width).map(|i| seed.wrapping_mul(31).wrapping_add(i as u8 * 7)).collect()
}

#[test]
fn combine_with_itself_is_zero() {
    for width in [16usize, 32] {
        let a = h(5, width);
        assert_eq!(hash_combine(&a, &a).unwrap(), vec![0u8; width]);
    }
}

#[test]
fn combine_is_commutative() {
    let a = h(1, 16);
    let b = h(2, 16);
    assert_eq!(hash_combine(&a, &b).unwrap(), hash_combine(&b, &a).unwrap());
}

#[test]
fn combine_is_bytewise_xor() {
    let a = vec![0x0fu8; 16];
    let mut b = vec![0xf0u8; 16];
    b[3] = 0x0f;
    let c = hash_combine(&a, &b).unwrap();
    assert_eq!(c[0], 0xff);
    assert_eq!(c[3], 0x00);
}

#[test]
fn combine_rejects_unequal_widths() {
    assert_eq!(hash_combine(&h(1, 16), &h(1, 32)), Err(CodecError::SizeMismatch));
}

#[test]
fn update_swapped_restores() {
    let combined = h(3, 16);
    let old = h(4, 16);
    let new = h(9, 16);
    let once = hash_update(&combined, &old, &new).unwrap();
    assert_ne!(once, combined);
    assert_eq!(hash_update(&once, &new, &old).unwrap(), combined);
}

#[test]
fn update_equals_combine_twice() {
    let combined = h(3, 32);
    let old = h(4, 32);
    let new = h(9, 32);
    let step = hash_combine(&hash_combine(&combined, &old).unwrap(), &new).unwrap();
    assert_eq!(hash_update(&combined, &old, &new).unwrap(), step);
}

#[test]
fn update_rejects_unequal_widths() {
    assert_eq!(hash_update(&h(1, 16), &h(2, 16), &h(3, 32)), Err(CodecError::SizeMismatch));
}

#[test]
fn equal_is_exact_comparison() {
    let a = h(1, 16);
    let mut b = a.clone();
    assert!(hash_equal(&a, &b));
    b[15] ^= 1;
    assert!(!hash_equal(&a, &b));
    assert!(!hash_equal(&a, &a[..15]));
}

#[test]
fn xor_in_place() {
    let mut this = h(1, 16);
    let other = h(2, 16);
    let expected = hash_combine(&this, &other).unwrap();
    assert_eq!(hash_xor(&mut this, &other), Ok(()));
    assert_eq!(this, expected);
    let before = this.clone();
    assert_eq!(hash_xor(&mut this, &h(2, 8)), Err(CodecError::SizeMismatch));
    assert_eq!(this, before);
}
