use biscuit_converter::BiscuitConverter;

#[test]
fn test_12_test_to_unsigned() {
    let biscuit_converter = BiscuitConverter::default();
    assert_eq!(biscuit_converter.to_u16("12".as_bytes()), Some(12));
    assert_eq!(biscuit_converter.to_u32("12".as_bytes()), Some(12));
    assert_eq!(biscuit_converter.to_u64("12".as_bytes()), Some(12));
    assert_eq!(biscuit_converter.to_u128("12".as_bytes()), Some(12));
}

#[test]
fn test_12_test_to_signed() {
    let biscuit_converter = BiscuitConverter::default();
    assert_eq!(biscuit_converter.to_i16("12".as_bytes()), Some(12));
    assert_eq!(biscuit_converter.to_i32("12".as_bytes()), Some(12));
    assert_eq!(biscuit_converter.to_i64("12".as_bytes()), Some(12));
    assert_eq!(biscuit_converter.to_i128("12".as_bytes()), Some(12));
    assert_eq!(biscuit_converter.to_i16("-12".as_bytes()), Some(-12));
    assert_eq!(biscuit_converter.to_i32("-12".as_bytes()), Some(-12));
    assert_eq!(biscuit_converter.to_i64("-12".as_bytes()), Some(-12));
    assert_eq!(biscuit_converter.to_i128("-12".as_bytes()), Some(-12));
}
