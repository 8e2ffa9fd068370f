use vstd::prelude::*;
use vstd::slice::slice_subrange;
use crate::dispatch::{parse_magnitude, signed_outcome, signed_spec};
use crate::error::ParseIntErr;
use crate::width::{lemma_width_limits, Width};
use crate::Biscuit;

verus! {

/// Parses a span of ASCII bytes as a signed integer of a width: an optional
/// leading minus, then digits. Behind a minus the magnitude is held against
/// the absolute value of the smallest signed value and the result is the
/// bitwise complement of the magnitude plus one; without one the magnitude
/// is held against the largest signed value. The value comes back in the
/// widest register and fits the width.
pub fn parse_signed(width: Width, bytes: &[u8]) -> (r: Result<i128, ParseIntErr>)
    ensures
        signed_outcome(r) == signed_spec(bytes@, width),
{
    proof {
        lemma_width_limits(width);
    }
    if bytes.len() > 0 && bytes[0] == 0x2d {
        match parse_magnitude(slice_subrange(bytes, 1, bytes.len()), width, true, false) {
            Ok(magnitude) => {
                proof {
                    lemma_signed_bits_i128(magnitude);
                }
                Ok((!(magnitude as i128)).wrapping_add(1))
            },
            Err(e) => Err(e),
        }
    } else {
        match parse_magnitude(bytes, width, false, true) {
            Ok(magnitude) => Ok(magnitude as i128),
            Err(e) => Err(e),
        }
    }
}

/// How a magnitude reads as a signed number of 128 bits: unchanged up to the
/// largest signed value, and `2^128` lower above it. The bitwise complement of
/// a signed number is one below its negation.
pub proof fn lemma_signed_bits_i128(magnitude: u128)
    by (bit_vector)
    ensures
        magnitude <= i128::MAX ==> (magnitude as i128) == magnitude,
        magnitude > i128::MAX ==> (magnitude as i128) == magnitude - u128::MAX - 1,
        !(magnitude as i128) == -((magnitude as i128) as int) - 1,
{
}

/// How a magnitude reads as a signed number of 64 bits: unchanged up to the
/// largest signed value, and `2^64` lower above it. The bitwise complement of
/// a signed number is one below its negation.
pub proof fn lemma_signed_bits_i64(magnitude: u64)
    by (bit_vector)
    ensures
        magnitude <= i64::MAX ==> (magnitude as i64) == magnitude,
        magnitude > i64::MAX ==> (magnitude as i64) == magnitude - u64::MAX - 1,
        !(magnitude as i64) == -((magnitude as i64) as int) - 1,
{
}

/// How a magnitude reads as a signed number of 32 bits: unchanged up to the
/// largest signed value, and `2^32` lower above it. The bitwise complement of
/// a signed number is one below its negation.
pub proof fn lemma_signed_bits_i32(magnitude: u32)
    by (bit_vector)
    ensures
        magnitude <= i32::MAX ==> (magnitude as i32) == magnitude,
        magnitude > i32::MAX ==> (magnitude as i32) == magnitude - u32::MAX - 1,
        !(magnitude as i32) == -((magnitude as i32) as int) - 1,
{
}

/// How a magnitude reads as a signed number of 16 bits: unchanged up to the
/// largest signed value, and `2^16` lower above it. The bitwise complement of
/// a signed number is one below its negation.
pub proof fn lemma_signed_bits_i16(magnitude: u16)
    by (bit_vector)
    ensures
        magnitude <= i16::MAX ==> (magnitude as i16) == magnitude,
        magnitude > i16::MAX ==> (magnitude as i16) == magnitude - u16::MAX - 1,
        !(magnitude as i16) == -((magnitude as i16) as int) - 1,
{
}

/// How a magnitude reads as a signed number of 8 bits: unchanged up to the
/// largest signed value, and `2^8` lower above it. The bitwise complement of
/// a signed number is one below its negation.
pub proof fn lemma_signed_bits_i8(magnitude: u8)
    by (bit_vector)
    ensures
        magnitude <= i8::MAX ==> (magnitude as i8) == magnitude,
        magnitude > i8::MAX ==> (magnitude as i8) == magnitude - u8::MAX - 1,
        !(magnitude as i8) == -((magnitude as i8) as int) - 1,
{
}

impl Biscuit for i128 {
    open spec fn width() -> Width {
        Width::W128
    }

    open spec fn signed() -> bool {
        true
    }

    open spec fn as_int(self) -> int {
        self as int
    }

    #[inline]
    fn parse_decimal(u: &[u8]) -> (r: Result<Self, ParseIntErr>) {
        if !u.is_empty() && u[0] == 0x2d {
            match u128::unsinged_decimal_core(slice_subrange(u, 1, u.len()), true, false) {
                Ok(val) => {
                    proof {
                        lemma_signed_bits_i128(val);
                    }
                    Ok((!(val as i128)).wrapping_add(1))
                },
                Err(e) => Err(e),
            }
        } else {
            match u128::unsinged_decimal_core(u, false, true) {
                Ok(val) => Ok(val as i128),
                Err(e) => Err(e),
            }
        }
    }

    fn unsinged_decimal_core(u: &[u8], neg_max_check: bool, pos_max_check: bool) -> (r: Result<
        Self,
        ParseIntErr,
    >) {
        match u128::unsinged_decimal_core(u, neg_max_check, true) {
            Ok(val) => Ok(val as i128),
            Err(e) => Err(e),
        }
    }
}

impl Biscuit for i64 {
    open spec fn width() -> Width {
        Width::W64
    }

    open spec fn signed() -> bool {
        true
    }

    open spec fn as_int(self) -> int {
        self as int
    }

    #[inline]
    fn parse_decimal(u: &[u8]) -> (r: Result<Self, ParseIntErr>) {
        if !u.is_empty() && u[0] == 0x2d {
            match u64::unsinged_decimal_core(slice_subrange(u, 1, u.len()), true, false) {
                Ok(val) => {
                    proof {
                        lemma_signed_bits_i64(val);
                    }
                    Ok((!(val as i64)).wrapping_add(1))
                },
                Err(e) => Err(e),
            }
        } else {
            match u64::unsinged_decimal_core(u, false, true) {
                Ok(val) => Ok(val as i64),
                Err(e) => Err(e),
            }
        }
    }

    fn unsinged_decimal_core(u: &[u8], neg_max_check: bool, pos_max_check: bool) -> (r: Result<
        Self,
        ParseIntErr,
    >) {
        match u64::unsinged_decimal_core(u, neg_max_check, true) {
            Ok(val) => Ok(val as i64),
            Err(e) => Err(e),
        }
    }
}

impl Biscuit for i32 {
    open spec fn width() -> Width {
        Width::W32
    }

    open spec fn signed() -> bool {
        true
    }

    open spec fn as_int(self) -> int {
        self as int
    }

    #[inline]
    fn parse_decimal(u: &[u8]) -> (r: Result<Self, ParseIntErr>) {
        if !u.is_empty() && u[0] == 0x2d {
            match u32::unsinged_decimal_core(slice_subrange(u, 1, u.len()), true, false) {
                Ok(val) => {
                    proof {
                        lemma_signed_bits_i32(val);
                    }
                    Ok((!(val as i32)).wrapping_add(1))
                },
                Err(e) => Err(e),
            }
        } else {
            match u32::unsinged_decimal_core(u, false, true) {
                Ok(val) => Ok(val as i32),
                Err(e) => Err(e),
            }
        }
    }

    fn unsinged_decimal_core(u: &[u8], neg_max_check: bool, pos_max_check: bool) -> (r: Result<
        Self,
        ParseIntErr,
    >) {
        match u32::unsinged_decimal_core(u, neg_max_check, true) {
            Ok(val) => Ok(val as i32),
            Err(e) => Err(e),
        }
    }
}

impl Biscuit for i16 {
    open spec fn width() -> Width {
        Width::W16
    }

    open spec fn signed() -> bool {
        true
    }

    open spec fn as_int(self) -> int {
        self as int
    }

    #[inline]
    fn parse_decimal(u: &[u8]) -> (r: Result<Self, ParseIntErr>) {
        if !u.is_empty() && u[0] == 0x2d {
            match u16::unsinged_decimal_core(slice_subrange(u, 1, u.len()), true, false) {
                Ok(val) => {
                    proof {
                        lemma_signed_bits_i16(val);
                    }
                    Ok((!(val as i16)).wrapping_add(1))
                },
                Err(e) => Err(e),
            }
        } else {
            match u16::unsinged_decimal_core(u, false, true) {
                Ok(val) => Ok(val as i16),
                Err(e) => Err(e),
            }
        }
    }

    fn unsinged_decimal_core(u: &[u8], neg_max_check: bool, pos_max_check: bool) -> (r: Result<
        Self,
        ParseIntErr,
    >) {
        match u16::unsinged_decimal_core(u, neg_max_check, true) {
            Ok(val) => Ok(val as i16),
            Err(e) => Err(e),
        }
    }
}

impl Biscuit for i8 {
    open spec fn width() -> Width {
        Width::W8
    }

    open spec fn signed() -> bool {
        true
    }

    open spec fn as_int(self) -> int {
        self as int
    }

    #[inline]
    fn parse_decimal(u: &[u8]) -> (r: Result<Self, ParseIntErr>) {
        if !u.is_empty() && u[0] == 0x2d {
            match u8::unsinged_decimal_core(slice_subrange(u, 1, u.len()), true, false) {
                Ok(val) => {
                    proof {
                        lemma_signed_bits_i8(val);
                    }
                    Ok((!(val as i8)).wrapping_add(1))
                },
                Err(e) => Err(e),
            }
        } else {
            match u8::unsinged_decimal_core(u, false, true) {
                Ok(val) => Ok(val as i8),
                Err(e) => Err(e),
            }
        }
    }

    fn unsinged_decimal_core(u: &[u8], neg_max_check: bool, pos_max_check: bool) -> (r: Result<
        Self,
        ParseIntErr,
    >) {
        match u8::unsinged_decimal_core(u, neg_max_check, true) {
            Ok(val) => Ok(val as i8),
            Err(e) => Err(e),
        }
    }
}

} // verus!
