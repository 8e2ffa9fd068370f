use vstd::prelude::*;
use vstd::slice::slice_subrange;
use crate::decimal::{
    all_digits, decimal_value, is_digit, lemma_digit_of, lemma_digits_extend,
    lemma_digits_fail_in_part,
};
use crate::error::ParseIntErr;
use crate::little_endian::{
    eight_to_u64, four_to_u32, lane, lanes, le_bytes_to_u128, le_bytes_to_u16, le_bytes_to_u32,
    le_bytes_to_u64, sixteen_to_u128, two_to_u16, zero_padded,
};

verus! {

/// In each 16-bit group, the number that carries a byte above `9`, and no
/// other, into the group's high byte.
pub const NINE_COMPLEMENT_U16: u16 = 0x00C6;

/// In each 16-bit group, the number that carries the distance from `0xFF` of
/// a byte below `0`, and of no other, into the group's high byte.
pub const ZERO_COMPLEMENT_U16: u16 = 0x0030;

/// The high byte of each 16-bit group, which a carry reaches.
pub const CARRY_MASK_U16: u16 = 0xFF00;

/// The low byte of each 16-bit group, which holds a lane under test.
pub const LANE_MASK_U16: u16 = 0x00FF;

/// In each 16-bit group, the number that carries a byte above `9`, and no
/// other, into the group's high byte.
pub const NINE_COMPLEMENT_U32: u32 = 0x00C6_00C6;

/// In each 16-bit group, the number that carries the distance from `0xFF` of
/// a byte below `0`, and of no other, into the group's high byte.
pub const ZERO_COMPLEMENT_U32: u32 = 0x0030_0030;

/// The high byte of each 16-bit group, which a carry reaches.
pub const CARRY_MASK_U32: u32 = 0xFF00_FF00;

/// The low byte of each 16-bit group, which holds a lane under test.
pub const LANE_MASK_U32: u32 = 0x00FF_00FF;

/// In each 16-bit group, the number that carries a byte above `9`, and no
/// other, into the group's high byte.
pub const NINE_COMPLEMENT_U64: u64 = 0x00C6_00C6_00C6_00C6;

/// In each 16-bit group, the number that carries the distance from `0xFF` of
/// a byte below `0`, and of no other, into the group's high byte.
pub const ZERO_COMPLEMENT_U64: u64 = 0x0030_0030_0030_0030;

/// The high byte of each 16-bit group, which a carry reaches.
pub const CARRY_MASK_U64: u64 = 0xFF00_FF00_FF00_FF00;

/// The low byte of each 16-bit group, which holds a lane under test.
pub const LANE_MASK_U64: u64 = 0x00FF_00FF_00FF_00FF;

/// In each 16-bit group, the number that carries a byte above `9`, and no
/// other, into the group's high byte.
pub const NINE_COMPLEMENT_U128: u128 = 0x00C6_00C6_00C6_00C6_00C6_00C6_00C6_00C6;

/// In each 16-bit group, the number that carries the distance from `0xFF` of
/// a byte below `0`, and of no other, into the group's high byte.
pub const ZERO_COMPLEMENT_U128: u128 = 0x0030_0030_0030_0030_0030_0030_0030_0030;

/// The high byte of each 16-bit group, which a carry reaches.
pub const CARRY_MASK_U128: u128 = 0xFF00_FF00_FF00_FF00_FF00_FF00_FF00_FF00;

/// The low byte of each 16-bit group, which holds a lane under test.
pub const LANE_MASK_U128: u128 = 0x00FF_00FF_00FF_00FF_00FF_00FF_00FF_00FF;

/// Whether adding `complement` to `spread`, which holds one lane in the low
/// byte of each 16-bit group, carries into no group's high byte.
pub open spec fn no_carry(spread: u128, complement: u128, carry_mask: u128) -> bool {
    ((spread + complement) as u128) & carry_mask == 0
}

/// The first `n` lanes of a register hold only digits exactly when each of
/// them does.
proof fn lemma_lanes_digits(chunk: u128, n: nat)
    requires
        n == 2 || n == 4 || n == 8 || n == 16,
    ensures
        all_digits(lanes(chunk, n)) == (forall|k: int| 0 <= k < n ==> is_digit(lane(chunk, k))),
        (forall|k: int| 0 <= k < n ==> is_digit(lane(chunk, k))) == ({
            &&& is_digit(lane(chunk, 0))
            &&& is_digit(lane(chunk, 1))
            &&& (n > 2 ==> is_digit(lane(chunk, 2)) && is_digit(lane(chunk, 3)))
            &&& (n > 4 ==> is_digit(lane(chunk, 4)) && is_digit(lane(chunk, 5)) && is_digit(
                lane(chunk, 6),
            ) && is_digit(lane(chunk, 7)))
            &&& (n > 8 ==> is_digit(lane(chunk, 8)) && is_digit(lane(chunk, 9)) && is_digit(
                lane(chunk, 10),
            ) && is_digit(lane(chunk, 11)) && is_digit(lane(chunk, 12)) && is_digit(
                lane(chunk, 13),
            ) && is_digit(lane(chunk, 14)) && is_digit(lane(chunk, 15)))
        }),
{
    let s = lanes(chunk, n);
    if forall|k: int| 0 <= k < n ==> is_digit(lane(chunk, k)) {
        assert forall|i: int| 0 <= i < s.len() implies is_digit(#[trigger] s[i]) by {
            assert(s[i] == lane(chunk, i));
        }
    }
    if all_digits(s) {
        assert forall|k: int| 0 <= k < n implies is_digit(lane(chunk, k)) by {
            assert(s[k] == lane(chunk, k));
        }
    }
    if is_digit(lane(chunk, 0)) && is_digit(lane(chunk, 1)) && (n > 2 ==> is_digit(lane(chunk, 2))
        && is_digit(lane(chunk, 3))) && (n > 4 ==> is_digit(lane(chunk, 4)) && is_digit(
        lane(chunk, 5),
    ) && is_digit(lane(chunk, 6)) && is_digit(lane(chunk, 7))) && (n > 8 ==> is_digit(
        lane(chunk, 8),
    ) && is_digit(lane(chunk, 9)) && is_digit(lane(chunk, 10)) && is_digit(lane(chunk, 11))
        && is_digit(lane(chunk, 12)) && is_digit(lane(chunk, 13)) && is_digit(lane(chunk, 14))
        && is_digit(lane(chunk, 15))) {
        assert forall|k: int| 0 <= k < n implies is_digit(lane(chunk, k)) by {
            assert(k == 0 || k == 1 || k == 2 || k == 3 || k == 4 || k == 5 || k == 6 || k == 7
                || k == 8 || k == 9 || k == 10 || k == 11 || k == 12 || k == 13 || k == 14 || k
                == 15);
        }
    }
}

/// Whether each of the two byte lanes of `chunk` holds a decimal digit,
/// found without a branch per lane. The even and the odd lanes are tested
/// apart, each spread over 16-bit groups: adding the nine-complement
/// carries out of a lane above `9`, and adding the zero-complement to the
/// lane's distance from `0xFF` carries out of a lane below `0`.
#[inline]
#[must_use]
pub fn check_decimal_bit_u16(chunk: u16) -> (valid: bool)
    ensures
        valid == all_digits(lanes(chunk as u128, 2)),
{
    proof {
        lemma_carry_tests_u16(chunk);
        lemma_lanes_digits(chunk as u128, 2);
    }
    let even = chunk & LANE_MASK_U16;
    let odd = (chunk & CARRY_MASK_U16) >> 8;
    let lower_upper_check = ((even + NINE_COMPLEMENT_U16) & CARRY_MASK_U16) == 0;
    let lower_lower_check = (((LANE_MASK_U16 - even) + ZERO_COMPLEMENT_U16) & CARRY_MASK_U16) == 0;
    let upper_upper_check = ((odd + NINE_COMPLEMENT_U16) & CARRY_MASK_U16) == 0;
    let upper_lower_check = (((LANE_MASK_U16 - odd) + ZERO_COMPLEMENT_U16) & CARRY_MASK_U16) == 0;
    lower_upper_check && lower_lower_check && upper_upper_check && upper_lower_check
}

/// The four carry tests on two lanes do not overflow, and all pass exactly
/// when every lane holds a digit.
proof fn lemma_carry_tests_u16(chunk: u16)
    by (bit_vector)
    ensures
        (chunk & LANE_MASK_U16) <= LANE_MASK_U16,
        (chunk & LANE_MASK_U16) + NINE_COMPLEMENT_U16 <= u16::MAX,
        (LANE_MASK_U16 - (chunk & LANE_MASK_U16)) + ZERO_COMPLEMENT_U16 <= u16::MAX,
        ((chunk & CARRY_MASK_U16) >> 8) <= LANE_MASK_U16,
        ((chunk & CARRY_MASK_U16) >> 8) + NINE_COMPLEMENT_U16 <= u16::MAX,
        (LANE_MASK_U16 - ((chunk & CARRY_MASK_U16) >> 8)) + ZERO_COMPLEMENT_U16 <= u16::MAX,
        ({
            let even = (chunk & LANE_MASK_U16) as u128;
            let odd = ((chunk & CARRY_MASK_U16) >> 8) as u128;
            let lanes = LANE_MASK_U16 as u128;
            let carry = CARRY_MASK_U16 as u128;
            &&& no_carry(even, NINE_COMPLEMENT_U16 as u128, carry)
            &&& no_carry((lanes - even) as u128, ZERO_COMPLEMENT_U16 as u128, carry)
            &&& no_carry(odd, NINE_COMPLEMENT_U16 as u128, carry)
            &&& no_carry((lanes - odd) as u128, ZERO_COMPLEMENT_U16 as u128, carry)
        }) == ({
            &&& is_digit(lane(chunk as u128, 0))
            &&& is_digit(lane(chunk as u128, 1))
        }),
{
}

/// Whether each of the four byte lanes of `chunk` holds a decimal digit,
/// found without a branch per lane. The even and the odd lanes are tested
/// apart, each spread over 16-bit groups: adding the nine-complement
/// carries out of a lane above `9`, and adding the zero-complement to the
/// lane's distance from `0xFF` carries out of a lane below `0`.
#[inline]
#[must_use]
pub fn check_decimal_bit_u32(chunk: u32) -> (valid: bool)
    ensures
        valid == all_digits(lanes(chunk as u128, 4)),
{
    proof {
        lemma_carry_tests_u32(chunk);
        lemma_lanes_digits(chunk as u128, 4);
    }
    let even = chunk & LANE_MASK_U32;
    let odd = (chunk & CARRY_MASK_U32) >> 8;
    let lower_upper_check = ((even + NINE_COMPLEMENT_U32) & CARRY_MASK_U32) == 0;
    let lower_lower_check = (((LANE_MASK_U32 - even) + ZERO_COMPLEMENT_U32) & CARRY_MASK_U32) == 0;
    let upper_upper_check = ((odd + NINE_COMPLEMENT_U32) & CARRY_MASK_U32) == 0;
    let upper_lower_check = (((LANE_MASK_U32 - odd) + ZERO_COMPLEMENT_U32) & CARRY_MASK_U32) == 0;
    lower_upper_check && lower_lower_check && upper_upper_check && upper_lower_check
}

/// The four carry tests on four lanes do not overflow, and all pass exactly
/// when every lane holds a digit.
proof fn lemma_carry_tests_u32(chunk: u32)
    by (bit_vector)
    ensures
        (chunk & LANE_MASK_U32) <= LANE_MASK_U32,
        (chunk & LANE_MASK_U32) + NINE_COMPLEMENT_U32 <= u32::MAX,
        (LANE_MASK_U32 - (chunk & LANE_MASK_U32)) + ZERO_COMPLEMENT_U32 <= u32::MAX,
        ((chunk & CARRY_MASK_U32) >> 8) <= LANE_MASK_U32,
        ((chunk & CARRY_MASK_U32) >> 8) + NINE_COMPLEMENT_U32 <= u32::MAX,
        (LANE_MASK_U32 - ((chunk & CARRY_MASK_U32) >> 8)) + ZERO_COMPLEMENT_U32 <= u32::MAX,
        ({
            let even = (chunk & LANE_MASK_U32) as u128;
            let odd = ((chunk & CARRY_MASK_U32) >> 8) as u128;
            let lanes = LANE_MASK_U32 as u128;
            let carry = CARRY_MASK_U32 as u128;
            &&& no_carry(even, NINE_COMPLEMENT_U32 as u128, carry)
            &&& no_carry((lanes - even) as u128, ZERO_COMPLEMENT_U32 as u128, carry)
            &&& no_carry(odd, NINE_COMPLEMENT_U32 as u128, carry)
            &&& no_carry((lanes - odd) as u128, ZERO_COMPLEMENT_U32 as u128, carry)
        }) == ({
            &&& is_digit(lane(chunk as u128, 0))
            &&& is_digit(lane(chunk as u128, 1))
            &&& is_digit(lane(chunk as u128, 2))
            &&& is_digit(lane(chunk as u128, 3))
        }),
{
}

/// Whether each of the eight byte lanes of `chunk` holds a decimal digit,
/// found without a branch per lane. The even and the odd lanes are tested
/// apart, each spread over 16-bit groups: adding the nine-complement
/// carries out of a lane above `9`, and adding the zero-complement to the
/// lane's distance from `0xFF` carries out of a lane below `0`.
#[inline]
#[must_use]
pub fn check_decimal_bit_u64(chunk: u64) -> (valid: bool)
    ensures
        valid == all_digits(lanes(chunk as u128, 8)),
{
    proof {
        lemma_carry_tests_u64(chunk);
        lemma_lanes_digits(chunk as u128, 8);
    }
    let even = chunk & LANE_MASK_U64;
    let odd = (chunk & CARRY_MASK_U64) >> 8;
    let lower_upper_check = ((even + NINE_COMPLEMENT_U64) & CARRY_MASK_U64) == 0;
    let lower_lower_check = (((LANE_MASK_U64 - even) + ZERO_COMPLEMENT_U64) & CARRY_MASK_U64) == 0;
    let upper_upper_check = ((odd + NINE_COMPLEMENT_U64) & CARRY_MASK_U64) == 0;
    let upper_lower_check = (((LANE_MASK_U64 - odd) + ZERO_COMPLEMENT_U64) & CARRY_MASK_U64) == 0;
    lower_upper_check && lower_lower_check && upper_upper_check && upper_lower_check
}

/// The four carry tests on eight lanes do not overflow, and all pass exactly
/// when every lane holds a digit.
proof fn lemma_carry_tests_u64(chunk: u64)
    by (bit_vector)
    ensures
        (chunk & LANE_MASK_U64) <= LANE_MASK_U64,
        (chunk & LANE_MASK_U64) + NINE_COMPLEMENT_U64 <= u64::MAX,
        (LANE_MASK_U64 - (chunk & LANE_MASK_U64)) + ZERO_COMPLEMENT_U64 <= u64::MAX,
        ((chunk & CARRY_MASK_U64) >> 8) <= LANE_MASK_U64,
        ((chunk & CARRY_MASK_U64) >> 8) + NINE_COMPLEMENT_U64 <= u64::MAX,
        (LANE_MASK_U64 - ((chunk & CARRY_MASK_U64) >> 8)) + ZERO_COMPLEMENT_U64 <= u64::MAX,
        ({
            let even = (chunk & LANE_MASK_U64) as u128;
            let odd = ((chunk & CARRY_MASK_U64) >> 8) as u128;
            let lanes = LANE_MASK_U64 as u128;
            let carry = CARRY_MASK_U64 as u128;
            &&& no_carry(even, NINE_COMPLEMENT_U64 as u128, carry)
            &&& no_carry((lanes - even) as u128, ZERO_COMPLEMENT_U64 as u128, carry)
            &&& no_carry(odd, NINE_COMPLEMENT_U64 as u128, carry)
            &&& no_carry((lanes - odd) as u128, ZERO_COMPLEMENT_U64 as u128, carry)
        }) == ({
            &&& is_digit(lane(chunk as u128, 0))
            &&& is_digit(lane(chunk as u128, 1))
            &&& is_digit(lane(chunk as u128, 2))
            &&& is_digit(lane(chunk as u128, 3))
            &&& is_digit(lane(chunk as u128, 4))
            &&& is_digit(lane(chunk as u128, 5))
            &&& is_digit(lane(chunk as u128, 6))
            &&& is_digit(lane(chunk as u128, 7))
        }),
{
}

/// Whether each of the sixteen byte lanes of `chunk` holds a decimal digit,
/// found without a branch per lane. The even and the odd lanes are tested
/// apart, each spread over 16-bit groups: adding the nine-complement
/// carries out of a lane above `9`, and adding the zero-complement to the
/// lane's distance from `0xFF` carries out of a lane below `0`.
#[inline]
#[must_use]
pub fn check_decimal_bit_u128(chunk: u128) -> (valid: bool)
    ensures
        valid == all_digits(lanes(chunk as u128, 16)),
{
    proof {
        lemma_carry_tests_u128(chunk);
        lemma_lanes_digits(chunk as u128, 16);
    }
    let even = chunk & LANE_MASK_U128;
    let odd = (chunk & CARRY_MASK_U128) >> 8;
    let lower_upper_check = ((even + NINE_COMPLEMENT_U128) & CARRY_MASK_U128) == 0;
    let lower_lower_check = (((LANE_MASK_U128 - even) + ZERO_COMPLEMENT_U128) & CARRY_MASK_U128)
        == 0;
    let upper_upper_check = ((odd + NINE_COMPLEMENT_U128) & CARRY_MASK_U128) == 0;
    let upper_lower_check = (((LANE_MASK_U128 - odd) + ZERO_COMPLEMENT_U128) & CARRY_MASK_U128)
        == 0;
    lower_upper_check && lower_lower_check && upper_upper_check && upper_lower_check
}

/// The four carry tests on sixteen lanes do not overflow, and all pass exactly
/// when every lane holds a digit.
proof fn lemma_carry_tests_u128(chunk: u128)
    by (bit_vector)
    ensures
        (chunk & LANE_MASK_U128) <= LANE_MASK_U128,
        (chunk & LANE_MASK_U128) + NINE_COMPLEMENT_U128 <= u128::MAX,
        (LANE_MASK_U128 - (chunk & LANE_MASK_U128)) + ZERO_COMPLEMENT_U128 <= u128::MAX,
        ((chunk & CARRY_MASK_U128) >> 8) <= LANE_MASK_U128,
        ((chunk & CARRY_MASK_U128) >> 8) + NINE_COMPLEMENT_U128 <= u128::MAX,
        (LANE_MASK_U128 - ((chunk & CARRY_MASK_U128) >> 8)) + ZERO_COMPLEMENT_U128 <= u128::MAX,
        ({
            let even = (chunk & LANE_MASK_U128) as u128;
            let odd = ((chunk & CARRY_MASK_U128) >> 8) as u128;
            let lanes = LANE_MASK_U128 as u128;
            let carry = CARRY_MASK_U128 as u128;
            &&& no_carry(even, NINE_COMPLEMENT_U128 as u128, carry)
            &&& no_carry((lanes - even) as u128, ZERO_COMPLEMENT_U128 as u128, carry)
            &&& no_carry(odd, NINE_COMPLEMENT_U128 as u128, carry)
            &&& no_carry((lanes - odd) as u128, ZERO_COMPLEMENT_U128 as u128, carry)
        }) == ({
            &&& is_digit(lane(chunk as u128, 0))
            &&& is_digit(lane(chunk as u128, 1))
            &&& is_digit(lane(chunk as u128, 2))
            &&& is_digit(lane(chunk as u128, 3))
            &&& is_digit(lane(chunk as u128, 4))
            &&& is_digit(lane(chunk as u128, 5))
            &&& is_digit(lane(chunk as u128, 6))
            &&& is_digit(lane(chunk as u128, 7))
            &&& is_digit(lane(chunk as u128, 8))
            &&& is_digit(lane(chunk as u128, 9))
            &&& is_digit(lane(chunk as u128, 10))
            &&& is_digit(lane(chunk as u128, 11))
            &&& is_digit(lane(chunk as u128, 12))
            &&& is_digit(lane(chunk as u128, 13))
            &&& is_digit(lane(chunk as u128, 14))
            &&& is_digit(lane(chunk as u128, 15))
        }),
{
}

/// A zero-padded span holds only digits exactly when nothing was padded and
/// the span itself holds only digits.
pub proof fn lemma_padded_digits(s: Seq<u8>, n: nat)
    requires
        s.len() <= n,
    ensures
        all_digits(zero_padded(s, n)) == (s.len() == n && all_digits(s)),
        s.len() == n ==> zero_padded(s, n) == s,
{
    let padded = zero_padded(s, n);
    if s.len() == n {
        assert(padded =~= s);
    } else {
        assert(padded[s.len() as int] == 0u8);
        assert(!is_digit(padded[s.len() as int]));
    }
}

/// Validates and decodes the one digit byte at the start of `input`.
#[inline]
pub fn checked_conversion_u8(input: &[u8]) -> (r: Result<u8, ParseIntErr>)
    requires
        input@.len() >= 1,
    ensures
        r.is_ok() == is_digit(input@[0]),
        r matches Ok(v) ==> v == input@[0] - 0x30 && v == decimal_value(input@.take(1)),
        r matches Err(e) ==> e == ParseIntErr::NonDecimal,
{
    if input[0] >= 0x30 && input[0] <= 0x39 {
        proof {
            lemma_digit_of(input@[0]);
            let one = input@.take(1);
            assert(one.last() == input@[0]);
            assert(decimal_value(one.drop_last()) == 0);
        }
        Ok(input[0] - 0x30)
    } else {
        Err(ParseIntErr::NonDecimal)
    }
}

/// Validates and decodes a span of two digit bytes. A shorter span is
/// padded with zero bytes, which are no digits.
#[inline]
pub fn checked_conversion_u16(input: &[u8]) -> (r: Result<u16, ParseIntErr>)
    requires
        input@.len() <= 2,
    ensures
        r.is_ok() == (input@.len() == 2 && all_digits(input@)),
        r matches Ok(v) ==> v == decimal_value(input@),
        r matches Err(e) ==> e == ParseIntErr::NonDecimal,
{
    let chunk = le_bytes_to_u16(input);
    proof {
        lemma_padded_digits(input@, 2);
    }
    if check_decimal_bit_u16(chunk) {
        Ok(two_to_u16_decimal(chunk))
    } else {
        Err(ParseIntErr::NonDecimal)
    }
}

/// Validates and decodes a span of four digit bytes. A shorter span is
/// padded with zero bytes, which are no digits.
#[inline]
pub fn checked_conversion_u32(input: &[u8]) -> (r: Result<u32, ParseIntErr>)
    requires
        input@.len() <= 4,
    ensures
        r.is_ok() == (input@.len() == 4 && all_digits(input@)),
        r matches Ok(v) ==> v == decimal_value(input@),
        r matches Err(e) ==> e == ParseIntErr::NonDecimal,
{
    let chunk = le_bytes_to_u32(input);
    proof {
        lemma_padded_digits(input@, 4);
    }
    if check_decimal_bit_u32(chunk) {
        Ok(four_to_u32(chunk))
    } else {
        Err(ParseIntErr::NonDecimal)
    }
}

/// Validates and decodes a span of eight digit bytes. A shorter span is
/// padded with zero bytes, which are no digits.
#[inline]
pub fn checked_conversion_u64(input: &[u8]) -> (r: Result<u64, ParseIntErr>)
    requires
        input@.len() <= 8,
    ensures
        r.is_ok() == (input@.len() == 8 && all_digits(input@)),
        r matches Ok(v) ==> v == decimal_value(input@),
        r matches Err(e) ==> e == ParseIntErr::NonDecimal,
{
    let chunk = le_bytes_to_u64(input);
    proof {
        lemma_padded_digits(input@, 8);
    }
    if check_decimal_bit_u64(chunk) {
        Ok(eight_to_u64(chunk))
    } else {
        Err(ParseIntErr::NonDecimal)
    }
}

/// Validates and decodes a span of sixteen digit bytes. A shorter span is
/// padded with zero bytes, which are no digits.
#[inline]
pub fn checked_conversion_u128(input: &[u8]) -> (r: Result<u128, ParseIntErr>)
    requires
        input@.len() <= 16,
    ensures
        r.is_ok() == (input@.len() == 16 && all_digits(input@)),
        r matches Ok(v) ==> v == decimal_value(input@),
        r matches Err(e) ==> e == ParseIntErr::NonDecimal,
{
    let chunk = le_bytes_to_u128(input);
    proof {
        lemma_padded_digits(input@, 16);
    }
    if check_decimal_bit_u128(chunk) {
        Ok(sixteen_to_u128(chunk))
    } else {
        Err(ParseIntErr::NonDecimal)
    }
}

/// Decodes two packed digit bytes: the number that the two lanes write, lane
/// 0 most significant, each lane counted with its low four bits.
#[inline]
#[must_use]
pub fn two_to_u16_decimal(chunk: u16) -> (value: u16)
    ensures
        value == decimal_value(lanes(chunk as u128, 2)),
{
    two_to_u16(chunk)
}

/// Whether every byte of `input` is a decimal digit. The span is tested in
/// groups of sixteen, eight, four and two bytes and one, the largest first
/// that fits in what is left, each group in one pass over its register.
pub fn check_decimal(input: &[u8]) -> (valid: bool)
    ensures
        valid == all_digits(input@),
{
    let n = input.len();
    let mut pos: usize = 0;
    while pos < n
        invariant
            n == input@.len(),
            pos <= n,
            all_digits(input@.take(pos as int)),
        decreases n - pos,
    {
        let rest = n - pos;
        let size: usize = if rest >= 16 {
            16
        } else if rest >= 8 {
            8
        } else if rest >= 4 {
            4
        } else if rest >= 2 {
            2
        } else {
            1
        };
        let group = slice_subrange(input, pos, pos + size);
        proof {
            lemma_padded_digits(group@, size as nat);
        }
        let valid = if size == 16 {
            check_decimal_bit_u128(le_bytes_to_u128(group))
        } else if size == 8 {
            check_decimal_bit_u64(le_bytes_to_u64(group))
        } else if size == 4 {
            check_decimal_bit_u32(le_bytes_to_u32(group))
        } else if size == 2 {
            check_decimal_bit_u16(le_bytes_to_u16(group))
        } else {
            proof {
                if is_digit(group@[0]) {
                    assert forall|i: int| 0 <= i < group@.len() implies is_digit(
                        #[trigger] group@[i],
                    ) by {
                        assert(i == 0);
                    }
                }
            }
            group[0] >= 0x30 && group[0] <= 0x39
        };
        if !valid {
            proof {
                lemma_digits_fail_in_part(input@, pos as int, size as int);
            }
            return false;
        }
        proof {
            lemma_digits_extend(input@, pos as int, size as int);
        }
        pos += size;
    }
    proof {
        assert(input@.take(n as int) =~= input@);
    }
    true
}

} // verus!
