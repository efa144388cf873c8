use exercises::decimal::{parse_i32, parse_u32, u32_to_string};
use exercises::sums::sum_squares;

#[test]
fn sum_squares_small_values() {
    assert_eq!(sum_squares(0), 0);
    assert_eq!(sum_squares(1), 1);
    assert_eq!(sum_squares(3), 14);
    assert_eq!(sum_squares(5), 55);
}

#[test]
fn sum_squares_wraps_like_unsigned_arithmetic() {
    // 3000*3001*6001/6 = 9004500500, reduced modulo 2^32.
    assert_eq!(sum_squares(3000), 414_565_908);
}

#[test]
fn formatting_decimal_numbers() {
    assert_eq!(u32_to_string(0), "0");
    assert_eq!(u32_to_string(7), "7");
    assert_eq!(u32_to_string(40), "40");
    assert_eq!(u32_to_string(12345), "12345");
    assert_eq!(u32_to_string(u32::MAX), "4294967295");
}

#[test]
fn parsing_unsigned_numbers() {
    assert_eq!(parse_u32("0"), Some(0));
    assert_eq!(parse_u32("123"), Some(123));
    assert_eq!(parse_u32("4294967295"), Some(u32::MAX));
    assert_eq!(parse_u32("4294967296"), None);
    assert_eq!(parse_u32(""), None);
    assert_eq!(parse_u32("12a"), None);
    assert_eq!(parse_u32("-3"), None);
    assert_eq!(parse_u32("+3"), Some(3));
    assert_eq!(parse_u32("++3"), None);
    assert_eq!(parse_u32("00042"), Some(42));
}

#[test]
fn parsing_signed_numbers() {
    assert_eq!(parse_i32("42"), Some(42));
    assert_eq!(parse_i32("-42"), Some(-42));
    assert_eq!(parse_i32("+7"), Some(7));
    assert_eq!(parse_i32("2147483647"), Some(i32::MAX));
    assert_eq!(parse_i32("2147483648"), None);
    assert_eq!(parse_i32("-2147483648"), Some(i32::MIN));
    assert_eq!(parse_i32("-2147483649"), None);
    assert_eq!(parse_i32("-"), None);
    assert_eq!(parse_i32("--4"), None);
    assert_eq!(parse_i32("-+4"), None);
    assert_eq!(parse_i32(""), None);
}

#[test]
fn formatted_numbers_parse_back() {
    for n in [0u32, 9, 10, 99, 100, 65536, 4294967295] {
        assert_eq!(parse_u32(&u32_to_string(n)), Some(n));
    }
}
