use biscuit_converter::BiscuitConverter;

#[test]
fn test_12345678901234567_test_to_unsigned() {
    let biscuit_converter = BiscuitConverter::default();
    assert_eq!(biscuit_converter.to_u64("12345678901234567".as_bytes()), Some(12345678901234567));
    assert_eq!(biscuit_converter.to_u128("12345678901234567".as_bytes()), Some(12345678901234567));
}

#[test]
fn test_12345678901234567_test_to_signed() {
    let biscuit_converter = BiscuitConverter::default();
    assert_eq!(biscuit_converter.to_i64("12345678901234567".as_bytes()), Some(12345678901234567));
    assert_eq!(biscuit_converter.to_i128("12345678901234567".as_bytes()), Some(12345678901234567));
    assert_eq!(biscuit_converter.to_i64("-12345678901234567".as_bytes()), Some(-12345678901234567));
    assert_eq!(biscuit_converter.to_i128("-12345678901234567".as_bytes()), Some(-12345678901234567));
}
