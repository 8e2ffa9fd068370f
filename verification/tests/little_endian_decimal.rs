use biscuit_converter::little_endian::{
    eight_to_u64, four_to_u32, le_bytes_to_u128, le_bytes_to_u16, le_bytes_to_u32, le_bytes_to_u64,
    sixteen_to_u128,
};
use biscuit_converter::little_endian_decimal::{
    check_decimal_bit_u128, check_decimal_bit_u16, check_decimal_bit_u32, check_decimal_bit_u64,
    two_to_u16_decimal,
};

fn check_decimal(input: &[u8]) -> bool {
    input.iter().all(|&x| (b'0'..=b'9').contains(&x))
}

#[test]
fn test_check_decimal() {
    for i in 0..100 {
        let u = format!("{}", i);
        let u = u.as_bytes();
        let chunk = le_bytes_to_u16(u);
        // a span that does not fill the register leaves zero lanes, which are no digits
        assert_eq!(check_decimal_bit_u16(chunk), check_decimal(u) && u.len() == 2);
    }

    let u_vec = [b"1x", b"x1", b"ab", b"zy"];
    for u in u_vec.iter() {
        let chunk = le_bytes_to_u16(*u);
        assert_eq!(check_decimal_bit_u16(chunk), check_decimal(*u));
    }
}

#[test]
fn test_check_decimal_u32() {
    for i in 0..10000 {
        let u = format!("{}", i);
        let u = u.as_bytes();
        let chunk = le_bytes_to_u32(u);
        // a span that does not fill the register leaves zero lanes, which are no digits
        assert_eq!(check_decimal_bit_u32(chunk), check_decimal(u) && u.len() == 4);
    }

    let u_vec = [b"1x1x", b"x11a", b"ab11", b"zyab"];
    for u in u_vec.iter() {
        let chunk = le_bytes_to_u32(*u);
        assert_eq!(check_decimal_bit_u32(chunk), check_decimal(*u));
    }
}

#[test]
fn test_check_decimal_u64() {
    for i in 0..10000 {
        let u = format!("{}", i);
        let u = u.as_bytes();
        let chunk = le_bytes_to_u64(u);
        // a span that does not fill the register leaves zero lanes, which are no digits
        assert_eq!(check_decimal_bit_u64(chunk), check_decimal(u) && u.len() == 8);
    }

    let u_vec = [b"1x1x1x1x", b"x11a11ax", b"ab11ab11", b"yabzyabz"];
    for u in u_vec.iter() {
        let chunk = le_bytes_to_u64(*u);
        assert_eq!(check_decimal_bit_u64(chunk), check_decimal(*u));
    }

    let test_vec = vec![
        b"12345678",
        b"8765b321",
        b"zyxwvuts",
        b"00005678",
    ];

    for u in test_vec.iter() {
        let chunk = le_bytes_to_u64(*u);
        assert_eq!(check_decimal_bit_u64(chunk), check_decimal(*u));
    }
}

#[test]
fn test_check_decimal_u128() {
    for i in 0..10000 {
        let u = format!("{}", i);
        let u = u.as_bytes();
        let chunk = le_bytes_to_u128(u);
        // a span that does not fill the register leaves zero lanes, which are no digits
        assert_eq!(check_decimal_bit_u128(chunk), check_decimal(u) && u.len() == 16);
    }

    let u_vec = [b"1x1x1x1x1x1x1x1x", b"11111a11a1x1x1x1", b"ab11ab11a1x1x1x1", b"zyabzyabz1x1x1x1"];
    for u in u_vec.iter() {
        let chunk = le_bytes_to_u128(*u);
        assert_eq!(check_decimal_bit_u128(chunk), check_decimal(*u));
    }
}

#[test]
fn little_endian_decimal_test_two_to_u16() {
    let u = b"12";
    let x: &[u8] = &u[..];
    let x = le_bytes_to_u16(x);
    assert_eq!(two_to_u16_decimal(x), 12);
}

#[test]
fn little_endian_decimal_test_four_to_u32() {
    let u = b"1234";
    let x: &[u8] = &u[..];
    let x = le_bytes_to_u32(x);
    assert_eq!(four_to_u32(x), 1234);
}

#[test]
fn little_endian_decimal_test_eight_to_u64() {
    let u = b"12345678";
    let x: &[u8] = &u[..];
    let x = le_bytes_to_u64(x);
    assert_eq!(eight_to_u64(x), 12345678);
}

#[test]
fn little_endian_decimal_test_sixteen_to_u128() {
    let u = b"1234567890123456";
    let x: &[u8] = &u[..];
    let x = le_bytes_to_u128(x);
    assert_eq!(sixteen_to_u128(x), 1234567890123456);
}
