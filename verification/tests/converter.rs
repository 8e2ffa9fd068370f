use biscuit_converter::error::ParseIntErr;
use biscuit_converter::unsigned::{decode_group_unchecked, dispatch_unchecked, fold_unchecked};
use biscuit_converter::{BiscuitConverter, BiscuitParser};

#[test]
fn unchecked_unsigned_conversions() {
    let converter = BiscuitConverter::default();
    assert_eq!(converter.to_u16(b""), None);
    assert_eq!(converter.to_u32(b""), None);
    assert_eq!(converter.to_u64(b""), None);
    assert_eq!(converter.to_u128(b""), None);
    assert_eq!(converter.to_u16(b"0"), Some(0));
    assert_eq!(converter.to_u16(b"65535"), Some(u16::MAX));
    assert_eq!(converter.to_u16(b"65536"), None);
    assert_eq!(converter.to_u16(b"99999"), None);
    assert_eq!(converter.to_u16(b"000000000000000000065535"), Some(u16::MAX));
    assert_eq!(converter.to_u32(b"4294967295"), Some(u32::MAX));
    assert_eq!(converter.to_u32(b"4294967296"), None);
    assert_eq!(converter.to_u64(b"18446744073709551615"), Some(u64::MAX));
    assert_eq!(converter.to_u64(b"18446744073709551616"), None);
    assert_eq!(converter.to_u64(b"123456789012345678901"), None);
    assert_eq!(converter.to_u128(b"340282366920938463463374607431768211455"), Some(u128::MAX));
    assert_eq!(converter.to_u128(b"340282366920938463463374607431768211456"), None);
    assert_eq!(converter.to_u128(b"3402823669209384634633746074317682114550"), None);
    for value in (0..=u64::MAX).step_by(0x0123_4567_89ab_cdef) {
        assert_eq!(converter.to_u64(value.to_string().as_bytes()), Some(value));
        assert_eq!(converter.to_u128(value.to_string().as_bytes()), Some(value as u128));
    }
}

#[test]
fn unchecked_signed_conversions() {
    let converter = BiscuitConverter::default();
    assert_eq!(converter.to_i16(b""), None);
    assert_eq!(converter.to_i16(b"-"), None);
    assert_eq!(converter.to_i64(b"-"), None);
    assert_eq!(converter.to_i16(b"-0"), Some(0));
    assert_eq!(converter.to_i16(b"32767"), Some(i16::MAX));
    assert_eq!(converter.to_i16(b"-32768"), Some(i16::MIN));
    // beyond the signed range the magnitude is read in two's complement
    assert_eq!(converter.to_i16(b"32768"), Some(i16::MIN));
    assert_eq!(converter.to_i16(b"65535"), Some(-1));
    assert_eq!(converter.to_i16(b"-32769"), Some(i16::MAX));
    assert_eq!(converter.to_i16(b"-65535"), Some(1));
    // beyond the unsigned range there is nothing
    assert_eq!(converter.to_i16(b"65536"), None);
    assert_eq!(converter.to_i16(b"-65536"), None);
    assert_eq!(converter.to_i64(b"9223372036854775807"), Some(i64::MAX));
    assert_eq!(converter.to_i64(b"-9223372036854775808"), Some(i64::MIN));
    assert_eq!(converter.to_i64(b"9223372036854775808"), Some(i64::MIN));
    assert_eq!(converter.to_i64(b"-01234567890123456789"), Some(-1234567890123456789));
    for value in (-1_000_000i64..=1_000_000).step_by(997) {
        assert_eq!(converter.to_i64(value.to_string().as_bytes()), Some(value));
        assert_eq!(converter.to_i32(value.to_string().as_bytes()), Some(value as i32));
    }
}

#[test]
fn unchecked_folds() {
    assert_eq!(decode_group_unchecked(b"12345678901234567", 0), (1234567890123456, 16));
    assert_eq!(decode_group_unchecked(b"12345678901234567", 16), (7, 1));
    assert_eq!(decode_group_unchecked(b"123", 0), (12, 2));
    assert_eq!(dispatch_unchecked(b""), Some(0));
    assert_eq!(dispatch_unchecked(b"0000000000000000000000000000000000000000000000000000000000012"), Some(12));
    assert_eq!(dispatch_unchecked(b"340282366920938463463374607431768211455"), Some(u128::MAX));
    assert_eq!(dispatch_unchecked(b"340282366920938463463374607431768211456"), None);
    assert_eq!(fold_unchecked(12, b"345"), Some(12345));
    assert_eq!(fold_unchecked(12, b""), Some(12));
    assert_eq!(fold_unchecked(0, b"7"), Some(7));
    assert_eq!(fold_unchecked(u128::MAX, b"0"), None);
    assert_eq!(fold_unchecked(34028236692093846346337460743176821145, b"5"), Some(u128::MAX));
    assert_eq!(fold_unchecked(34028236692093846346337460743176821145, b"6"), None);
}

#[test]
fn the_decimal_point_is_found() {
    let scanning = BiscuitParser::default();
    assert_eq!(scanning.fraction_span(b"12.34"), 3);
    assert_eq!(scanning.fraction_span(b"1234."), 1);
    assert_eq!(scanning.fraction_span(b".1234"), 5);
    assert_eq!(scanning.fraction_span(b"1234"), 0);
    assert_eq!(scanning.fraction_span(b""), 0);
    assert_eq!(scanning.fraction_span(b"1.2.3"), 4);
    assert_eq!(scanning.fraction_span(b"-12.5"), 2);
    assert_eq!(BiscuitParser::new().fraction_span(b"0.5"), 2);
    let known = BiscuitParser::with_known_fraction_length(2);
    assert_eq!(known.fraction_length, Some(2));
    assert_eq!(known.fraction_span(b"12.34"), 3);
    assert_eq!(known.fraction_span(b"1234"), 3);
    assert_eq!(BiscuitParser::with_known_fraction_length(0).fraction_span(b"12."), 1);
}

#[test]
fn clean_decimal_text() {
    let parser = BiscuitParser::default();
    assert!(parser.is_clean(b"12.34", 3));
    assert!(parser.is_clean(b"1234", 0));
    assert!(parser.is_clean(b"1234.", 1));
    assert!(parser.is_clean(b".1234", 5));
    assert!(parser.is_clean(b"", 0));
    assert!(parser.is_clean(b".", 1));
    assert!(!parser.is_clean(b"12.34", 2));
    assert!(!parser.is_clean(b"12.34", 0));
    assert!(!parser.is_clean(b"12.34", 6));
    assert!(!parser.is_clean(b"1.2.3", 2));
    assert!(!parser.is_clean(b"-12.5", 2));
    assert!(!parser.is_clean(b"12a.5", 2));
    assert!(!parser.is_clean(b"12.5a", 3));
}

#[test]
fn digits_around_the_point_make_one_number() {
    let parser = BiscuitParser::default();
    assert_eq!(parser.float_to_u128_core(b"12.34", 5, 3), 1234);
    assert_eq!(parser.float_to_u128_core(b"1234", 4, 0), 1234);
    assert_eq!(parser.float_to_u128_core(b"1234.", 5, 1), 1234);
    assert_eq!(parser.float_to_u128_core(b".1234", 5, 5), 1234);
    assert_eq!(parser.float_to_u128_core(b"0.001", 5, 4), 1);
    assert_eq!(parser.float_to_u128_core(b".", 1, 1), 0);
    assert_eq!(parser.float_to_u128_core(b"", 0, 0), 0);
    assert_eq!(
        parser.float_to_u128_core(b"12345678901234567890.123456789012345678", 39, 19),
        12345678901234567890123456789012345678
    );
    assert_eq!(
        parser.float_to_u128_core(b"3402823669209384634633746074317682.11455", 40, 6),
        u128::MAX
    );
    assert_eq!(parser.float_to_u64_core(b"1844674407370955.1615", 21, 5), u64::MAX);
    assert_eq!(parser.float_to_u64_core(b"123456789.0123456", 17, 8), 1234567890123456);
    assert_eq!(parser.float_to_u32_core(b"42949.67295", 11, 6), u32::MAX);
    assert_eq!(parser.float_to_u16_core(b"6.5535", 6, 5), u16::MAX);
    assert_eq!(parser.float_to_u16_core(b"123.", 4, 1), 123);
}

#[test]
fn a_minus_negates_the_number() {
    let parser = BiscuitParser::default();
    assert_eq!(parser.float_to_i128(b"-12.34", 6, 3), -1234);
    assert_eq!(parser.float_to_i128(b"12.34", 5, 3), 1234);
    assert_eq!(parser.float_to_i128(b"-1234", 5, 0), -1234);
    assert_eq!(parser.float_to_i128(b"-", 1, 0), 0);
    assert_eq!(parser.float_to_i64(b"-0.5", 4, 2), -5);
    assert_eq!(parser.float_to_i64(b"-92233720368547758.08", 21, 3), i64::MIN);
    assert_eq!(parser.float_to_i64(b"92233720368547758.07", 20, 3), i64::MAX);
    assert_eq!(parser.float_to_i32(b"-1.5", 4, 2), -15);
    assert_eq!(parser.float_to_i32(b"123.", 4, 1), 123);
    assert_eq!(parser.float_to_i16(b"-1.23", 5, 3), -123);
    assert_eq!(parser.float_to_i16(b"3276.7", 6, 2), i16::MAX);
    // beyond the signed range the magnitude is read in two's complement
    assert_eq!(parser.float_to_i16(b"3276.8", 6, 2), i16::MIN);
    assert_eq!(parser.float_to_i16(b"-3276.9", 7, 2), i16::MAX);
}

#[test]
fn error_names() {
    assert_eq!(ParseIntErr::NonDecimal.as_str(), "NonDecimal");
    assert_eq!(ParseIntErr::Empty.as_str(), "Empty");
    assert_eq!(ParseIntErr::Overflow.as_str(), "Overflow");
    assert_eq!(ParseIntErr::NegOverflow.as_str(), "NegOverflow");
    assert_eq!(ParseIntErr::Unknown.as_str(), "UnknownError");
    assert_eq!(ParseIntErr::NonDecimal.to_string(), "NonDecimal");
    assert_eq!(ParseIntErr::Empty.to_string(), "Empty");
    assert_eq!(ParseIntErr::Overflow.to_string(), "Overflow");
    assert_eq!(ParseIntErr::NegOverflow.to_string(), "NegOverflow");
    assert_eq!(ParseIntErr::Unknown.to_string(), "UnknownError");
    assert_eq!(ParseIntErr::Overflow.clone(), ParseIntErr::Overflow);
    assert_ne!(ParseIntErr::Overflow, ParseIntErr::NegOverflow);
}
