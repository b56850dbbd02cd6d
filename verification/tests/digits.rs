use pdf_launcher::digits::{checked_fix_len, fix_len, pow10_u32, u32_len};

#[test]
fn test_u32_len() {
    assert_eq!(u32_len(0), 1);
    assert_eq!(u32_len(5), 1);
    assert_eq!(u32_len(10), 2);
    assert_eq!(u32_len(99), 2);
    assert_eq!(u32_len(100), 3);
    assert_eq!(u32_len(999), 3);
    assert_eq!(u32_len(1000), 4);
    assert_eq!(u32_len(12345), 5);
}

#[test]
fn test_fix_len_same_length() {
    assert_eq!(fix_len(123, 456), 123);
    assert_eq!(fix_len(99, 88), 99);
}

#[test]
fn test_fix_len_shorter_number() {
    assert_eq!(fix_len(23, 1234), 1223);
    assert_eq!(fix_len(5, 123), 125);
    assert_eq!(fix_len(67, 1234), 1267);
    assert_eq!(fix_len(1, 9876), 9871);
}

#[test]
fn test_fix_len_longer_number() {
    assert_eq!(fix_len(1234, 56), 1234);
    assert_eq!(fix_len(999, 12), 999);
}

#[test]
fn u32_len_at_the_powers_of_ten() {
    let mut power: u32 = 1;
    for digits in 1..=10u32 {
        assert_eq!(u32_len(power), digits);
        if digits > 1 {
            assert_eq!(u32_len(power - 1), digits - 1);
        }
        if digits < 10 {
            power *= 10;
        }
    }
    assert_eq!(u32_len(9), 1);
    assert_eq!(u32_len(u32::MAX), 10);
}

#[test]
fn pow10_u32_values() {
    assert_eq!(pow10_u32(0), 1);
    assert_eq!(pow10_u32(1), 10);
    assert_eq!(pow10_u32(3), 1000);
    assert_eq!(pow10_u32(9), 1_000_000_000);
}

#[test]
fn fix_len_with_zero() {
    assert_eq!(fix_len(0, 1234), 1230);
    assert_eq!(fix_len(0, 0), 0);
    assert_eq!(fix_len(7, 0), 7);
    assert_eq!(fix_len(0, 7), 0);
}

#[test]
fn fix_len_never_shortens() {
    for &(n, prev) in &[(23u32, 1234u32), (5, 123), (1234, 56), (0, 10), (99, 100), (100, 99)] {
        let fixed = fix_len(n, prev);
        assert!(fixed >= n);
        assert_eq!(u32_len(fixed), u32_len(n).max(u32_len(prev)));
    }
}

#[test]
fn fix_len_is_stable() {
    for &(n, prev) in &[(23u32, 1234u32), (5, 123), (1234, 56), (0, 10), (7, 7)] {
        let fixed = fix_len(n, prev);
        assert_eq!(fix_len(fixed, prev), fixed);
        assert_eq!(fix_len(n, fixed), fixed);
    }
}

#[test]
fn fix_len_again_is_a_no_op_for_a_wide_value() {
    for &(n, prev) in &[(1234u32, 56u32), (123, 456), (10, 9), (0, 0)] {
        let fixed = fix_len(n, prev);
        assert_eq!(fixed, n);
        assert_eq!(fix_len(n, fixed), n);
    }
    assert_eq!(fix_len(4321, fix_len(23, 1234)), 4321);
    assert_eq!(fix_len(54321, fix_len(23, 1234)), 54321);
}

#[test]
fn checked_fix_len_agrees_with_fix_len() {
    assert_eq!(checked_fix_len(23, 1234), Some(1223));
    assert_eq!(checked_fix_len(1234, 56), Some(1234));
    assert_eq!(checked_fix_len(294_967_295, 4_000_000_000), Some(4_294_967_295));
}

#[test]
fn checked_fix_len_reports_overflow() {
    assert_eq!(checked_fix_len(999_999_999, 4_294_967_295), None);
    assert_eq!(checked_fix_len(294_967_296, 4_000_000_000), None);
}
