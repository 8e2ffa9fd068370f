use biscuit_converter::BiscuitConverter;

#[test]
fn integer_test_conversion() {
    let biscuit_parser = BiscuitConverter::default();
    assert_eq!(biscuit_parser.to_i16("-1234".as_bytes()).unwrap(), -1234);
    assert_eq!(biscuit_parser.to_i32("-123456789".as_bytes()).unwrap(), -123456789);
    assert_eq!(biscuit_parser.to_i64("-123456789012345".as_bytes()).unwrap(), -123456789012345);
    assert_eq!(biscuit_parser.to_i128("-1234567890123456789012345".as_bytes()).unwrap(), -1234567890123456789012345);
}
