use utiles::sqlite_u64::{
    i64_to_u64_ptr, i64_to_u64_shift, i64_to_u64_transmute, u64_to_i64_ptr, u64_to_i64_shift,
    u64_to_i64_transmute,
};

#[test]
fn test_u64_to_i64_left() {
    let input: u64 = 0;
    let expected: i64 = -9223372036854775808;
    assert_eq!(u64_to_i64_shift(input), expected);
    let back: u64 = i64_to_u64_shift(expected);
    assert_eq!(back, input);
}

#[test]
fn test_i64_to_u64_middle() {
    let input: i64 = 0;
    let expected: u64 = 9223372036854775808;
    assert_eq!(i64_to_u64_shift(input), expected);
    let back: i64 = u64_to_i64_shift(expected);
    assert_eq!(back, input);
}

#[test]
fn test_u64_to_i64_right() {
    let input: u64 = 0xFFFFFFFFFFFFFFFF;
    let expected: i64 = 9223372036854775807;
    assert_eq!(u64_to_i64_shift(input), expected);
    let back: u64 = i64_to_u64_shift(expected);
    assert_eq!(back, input);
}

#[test]
fn test_round_trip() {
    let start_u64: u64 = 0xFEDCBA9876543210;
    let intermediate_i64: i64 = u64_to_i64_shift(start_u64);
    let final_u64: u64 = i64_to_u64_shift(intermediate_i64);
    assert_eq!(start_u64, final_u64);

    let start_i64: i64 = -0x123456789ABCDEF;
    let intermediate_u64: u64 = i64_to_u64_shift(start_i64);
    let final_i64: i64 = u64_to_i64_shift(intermediate_u64);
    assert_eq!(start_i64, final_i64);
}

#[test]
fn sqlite_u64_test_i64_to_u64_zero() {
    let input: i64 = 0;
    let expected: u64 = 0;
    assert_eq!(i64_to_u64_transmute(input), expected);
}

#[test]
fn sqlite_u64_test_u64_to_i64_positive() {
    let input: u64 = 0x7FFFFFFFFFFFFFFF;
    let expected: i64 = 0x7FFFFFFFFFFFFFFF;
    assert_eq!(u64_to_i64_transmute(input), expected);
}

#[test]
fn sqlite_u64_test_u64_to_i64_negative() {
    let input: u64 = 0xFFFFFFFFFFFFFFFF;
    let expected: i64 = -1;
    assert_eq!(u64_to_i64_transmute(input), expected);
}

#[test]
fn sqlite_u64_test_i64_to_u64_positive() {
    let input: i64 = 0x7FFFFFFFFFFFFFFF;
    let expected: u64 = 0x7FFFFFFFFFFFFFFF;
    assert_eq!(i64_to_u64_transmute(input), expected);
}

#[test]
fn sqlite_u64_test_i64_to_u64_negative() {
    let input: i64 = -1;
    let expected: u64 = 0xFFFFFFFFFFFFFFFF;
    assert_eq!(i64_to_u64_transmute(input), expected);
}

#[test]
fn sqlite_u64_ptr_test_i64_to_u64_zero() {
    let input: i64 = 0;
    let expected: u64 = 0;
    assert_eq!(i64_to_u64_ptr(input), expected);
}

#[test]
fn sqlite_u64_ptr_test_u64_to_i64_positive() {
    let input: u64 = 0x7FFFFFFFFFFFFFFF;
    let expected: i64 = 0x7FFFFFFFFFFFFFFF;
    assert_eq!(u64_to_i64_ptr(input), expected);
}

#[test]
fn sqlite_u64_ptr_test_u64_to_i64_negative() {
    let input: u64 = 0xFFFFFFFFFFFFFFFF;
    let expected: i64 = -1;
    assert_eq!(u64_to_i64_ptr(input), expected);
}

#[test]
fn sqlite_u64_ptr_test_i64_to_u64_positive() {
    let input: i64 = 0x7FFFFFFFFFFFFFFF;
    let expected: u64 = 0x7FFFFFFFFFFFFFFF;
    assert_eq!(i64_to_u64_ptr(input), expected);
}

#[test]
fn sqlite_u64_ptr_test_i64_to_u64_negative() {
    let input: i64 = -1;
    let expected: u64 = 0xFFFFFFFFFFFFFFFF;
    assert_eq!(i64_to_u64_ptr(input), expected);
}

#[test]
fn shift_keeps_order() {
    let vals = [0u64, 1, 0x7FFF_FFFF_FFFF_FFFF, 0x8000_0000_0000_0000, u64::MAX - 1, u64::MAX];
    for w in vals.windows(2) {
        assert!(u64_to_i64_shift(w[0]) < u64_to_i64_shift(w[1]));
    }
}
