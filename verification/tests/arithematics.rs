use biscuit_converter::arithematics::{div10u32, div10u64, u32_length, u64_length};

#[test]
fn test_div_rem_bit_u32() {
    assert_eq!(div10u32(1), (0, 1));
    assert_eq!(div10u32(12), (1, 2));
    assert_eq!(div10u32(123), (12, 3));
    assert_eq!(div10u32(1234), (123, 4));
    assert_eq!(div10u32(12345), (1234, 5));
    assert_eq!(div10u32(123456), (12345, 6));
    assert_eq!(div10u32(1234567), (123456, 7));
    assert_eq!(div10u32(12345678), (1234567, 8));
    assert_eq!(div10u32(123456789), (12345678, 9));
}

#[test]
fn test_div_rem_bit_u64() {
    assert_eq!(div10u64(1), (0, 1));
    assert_eq!(div10u64(12), (1, 2));
    assert_eq!(div10u64(123), (12, 3));
    assert_eq!(div10u64(1234), (123, 4));
    assert_eq!(div10u64(12345), (1234, 5));
    assert_eq!(div10u64(123456), (12345, 6));
    assert_eq!(div10u64(1234567), (123456, 7));
    assert_eq!(div10u64(12345678), (1234567, 8));
    assert_eq!(div10u64(123456789), (12345678, 9));
    assert_eq!(div10u64(1234567890), (123456789, 0));
    assert_eq!(div10u64(12345678901), (1234567890, 1));
    assert_eq!(div10u64(123456789012), (12345678901, 2));
    assert_eq!(div10u64(1234567890123), (123456789012, 3));
    assert_eq!(div10u64(12345678901234), (1234567890123, 4));
    assert_eq!(div10u64(123456789012345), (12345678901234, 5));
}

#[test]
fn test_u64_length() {
    assert_eq!(u64_length(0), 1);
    assert_eq!(u64_length(1), 1);
    assert_eq!(u64_length(9), 1);
    assert_eq!(u64_length(10), 2);
    assert_eq!(u64_length(99), 2);
    assert_eq!(u64_length(100), 3);
    assert_eq!(u64_length(999), 3);
    assert_eq!(u64_length(1000), 4);
    assert_eq!(u64_length(9999), 4);
    assert_eq!(u64_length(10000), 5);
    assert_eq!(u64_length(99999), 5);
    assert_eq!(u64_length(100000), 6);
    assert_eq!(u64_length(999999), 6);
    assert_eq!(u64_length(1000000), 7);
    assert_eq!(u64_length(9999999), 7);
    assert_eq!(u64_length(10000000), 8);
    assert_eq!(u64_length(99999999), 8);
    assert_eq!(u64_length(100000000), 9);
    assert_eq!(u64_length(999999999), 9);
    assert_eq!(u64_length(1000000000), 10);
    assert_eq!(u64_length(9999999999), 10);
    assert_eq!(u64_length(10000000000), 11);
    assert_eq!(u64_length(99999999999), 11);
    assert_eq!(u64_length(100000000000), 12);
    assert_eq!(u64_length(999999999999), 12);
    assert_eq!(u64_length(1000000000000), 13);
    assert_eq!(u64_length(9999999999999), 13);
    assert_eq!(u64_length(10000000000000), 14);
    assert_eq!(u64_length(99999999999999), 14);
    assert_eq!(u64_length(100000000000000), 15);
    assert_eq!(u64_length(999999999999999), 15);
    assert_eq!(u64_length(1000000000000000), 16);
    assert_eq!(u64_length(9999999999999999), 16);
    assert_eq!(u64_length(10000000000000000), 17);
    assert_eq!(u64_length(99999999999999999), 17);
    assert_eq!(u64_length(100000000000000000), 18);
    assert_eq!(u64_length(999999999999999999), 18);
    assert_eq!(u64_length(1000000000000000000), 19);
}

#[test]
fn test_u32_length() {
    assert_eq!(u32_length(0), 1);
    assert_eq!(u32_length(1), 1);
    assert_eq!(u32_length(9), 1);
    assert_eq!(u32_length(10), 2);
    assert_eq!(u32_length(99), 2);
    assert_eq!(u32_length(100), 3);
    assert_eq!(u32_length(999), 3);
    assert_eq!(u32_length(1000), 4);
    assert_eq!(u32_length(9999), 4);
    assert_eq!(u32_length(10000), 5);
    assert_eq!(u32_length(99999), 5);
    assert_eq!(u32_length(100000), 6);
    assert_eq!(u32_length(999999), 6);
    assert_eq!(u32_length(1000000), 7);
    assert_eq!(u32_length(9999999), 7);
    assert_eq!(u32_length(10000000), 8);
    assert_eq!(u32_length(99999999), 8);
    assert_eq!(u32_length(100000000), 9);
    assert_eq!(u32_length(999999999), 9);
}
