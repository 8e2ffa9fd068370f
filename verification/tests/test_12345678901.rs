use biscuit_converter::BiscuitConverter;

#[test]
fn test_12345678901_test_to_unsigned() {
    let biscuit_parser = BiscuitConverter::default();
    assert_eq!(biscuit_parser.to_u64("12345678901".as_bytes()), Some(12345678901));
    assert_eq!(biscuit_parser.to_u128("12345678901".as_bytes()), Some(12345678901));
}

#[test]
fn test_12345678901_test_to_signed() {
    let biscuit_parser = BiscuitConverter::default();
    assert_eq!(biscuit_parser.to_i64("12345678901".as_bytes()), Some(12345678901));
    assert_eq!(biscuit_parser.to_i128("12345678901".as_bytes()), Some(12345678901));
    //
    assert_eq!(biscuit_parser.to_i64("-12345678901".as_bytes()), Some(-12345678901));
    assert_eq!(biscuit_parser.to_i128("-12345678901".as_bytes()), Some(-12345678901));
}
