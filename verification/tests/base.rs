use biscuit_converter::error::ParseIntErr;
use biscuit_converter::Biscuit;

#[test]
fn lib_test_base() {
    let err_overflow = i32::parse_decimal(b"1234567890123");
    assert_eq!(err_overflow, Err(ParseIntErr::Overflow));

    let val_i64 = i64::parse_decimal(b"1234567890123");
    assert_eq!(val_i64, Ok(1234567890123));

    let nondecimal = i32::parse_decimal(b"123a");
    assert_eq!(nondecimal, Err(ParseIntErr::NonDecimal));

    let nondecimal = i32::parse_decimal(b"a123");
    assert_eq!(nondecimal, Err(ParseIntErr::NonDecimal));

    let err_empty = i32::parse_decimal(b"");
    assert_eq!(err_empty, Err(ParseIntErr::Empty));

    let u128_max_str = b"340282366920938463463374607431768211455";
    let val_u128_max = u128::parse_decimal(u128_max_str).unwrap();
    assert_eq!(val_u128_max, u128::MAX);

    let u128_overflow_str = b"340282366920938463463374607431768211456";
    let err_u128_overflow = u128::parse_decimal(u128_overflow_str);
    assert_eq!(err_u128_overflow, Err(ParseIntErr::Overflow));
    
    let i128_max_str = b"170141183460469231731687303715884105727";
    let val_i128_max = i128::parse_decimal(i128_max_str).unwrap();
    assert_eq!(val_i128_max, i128::MAX);

    let i128_overflow_str = b"170141183460469231731687303715884105728";
    let i128_overflowed_value = i128::parse_decimal(i128_overflow_str);
    // it is under the maximum of u128 
    assert_eq!(i128_overflowed_value, Err(ParseIntErr::Overflow));

    let i128_leading_zero_str = b"00000000000000000000000000000000000000000000001234";
    let val_i128_leading_zero = i128::parse_decimal(i128_leading_zero_str).unwrap();
    assert_eq!(val_i128_leading_zero, 1234);
}

#[test]
fn test_std() {
    let err_overflow = "1234567890123".parse::<i32>();
    match err_overflow {
        Ok(_) => panic!("Should have failed to parse"),
        Err(e) => assert_eq!(*e.kind(), std::num::IntErrorKind::PosOverflow),
    }

    let val_i64 = "1234567890123".parse::<i64>();
    assert_eq!(val_i64, Ok(1234567890123));

    let nondecimal = "123a".parse::<i64>();
    match nondecimal {
        Ok(_) => panic!("Should have failed to parse"),
        Err(e) => assert_eq!(*e.kind(), std::num::IntErrorKind::InvalidDigit),
    }

    let nondecimal = "a123".parse::<i64>();
    match nondecimal {
        Ok(_) => panic!("Should have failed to parse"),
        Err(e) => assert_eq!(*e.kind(), std::num::IntErrorKind::InvalidDigit),
    }

    let err_empty = "".parse::<i64>();
    match err_empty {
        Ok(_) => panic!("Should have failed to parse"),
        Err(e) => assert_eq!(*e.kind(), std::num::IntErrorKind::Empty),
    }

    let u128_max_str = "340282366920938463463374607431768211455".parse::<u128>();
    assert_eq!(u128_max_str, Ok(u128::MAX));

    let u128_overflow_str = "340282366920938463463374607431768211456".parse::<u128>();
    match u128_overflow_str {
        Ok(_) => panic!("Should have failed to parse"),
        Err(e) => assert_eq!(*e.kind(), std::num::IntErrorKind::PosOverflow),
    }

    let i128_max_str = "170141183460469231731687303715884105727".parse::<i128>();
    assert_eq!(i128_max_str, Ok(i128::MAX));

    let i128_overflow_str = "170141183460469231731687303715884105728".parse::<i128>();
    match i128_overflow_str {
        Ok(_) => panic!("Should have failed to parse"),
        Err(e) => assert_eq!(*e.kind(), std::num::IntErrorKind::PosOverflow),
    }

    let i128_leading_zero_str = "000000000000000000000000000000000000000000000000001234".parse::<i128>();
    assert_eq!(i128_leading_zero_str, Ok(1234));
}
