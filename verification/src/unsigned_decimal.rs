use vstd::prelude::*;
use crate::dispatch::{parse_magnitude, unsigned_outcome, unsigned_spec};
use crate::error::ParseIntErr;
use crate::width::Width;
use crate::Biscuit;

verus! {

/// Parses a span of ASCII digits as an unsigned integer of a width. The
/// value comes back in the widest register and fits the width.
pub fn parse_unsigned(width: Width, bytes: &[u8]) -> (r: Result<u128, ParseIntErr>)
    ensures
        unsigned_outcome(r) == unsigned_spec(bytes@, width),
{
    parse_magnitude(bytes, width, false, false)
}

impl Biscuit for u128 {
    open spec fn width() -> Width {
        Width::W128
    }

    open spec fn signed() -> bool {
        false
    }

    open spec fn as_int(self) -> int {
        self as int
    }

    #[inline]
    fn parse_decimal(u: &[u8]) -> (r: Result<Self, ParseIntErr>) {
        Self::unsinged_decimal_core(u, false, false)
    }

    fn unsinged_decimal_core(u: &[u8], neg_max_check: bool, pos_max_check: bool) -> (r: Result<
        Self,
        ParseIntErr,
    >) {
        parse_magnitude(u, Width::W128, neg_max_check, pos_max_check)
    }
}

impl Biscuit for u64 {
    open spec fn width() -> Width {
        Width::W64
    }

    open spec fn signed() -> bool {
        false
    }

    open spec fn as_int(self) -> int {
        self as int
    }

    #[inline]
    fn parse_decimal(u: &[u8]) -> (r: Result<Self, ParseIntErr>) {
        Self::unsinged_decimal_core(u, false, false)
    }

    fn unsinged_decimal_core(u: &[u8], neg_max_check: bool, pos_max_check: bool) -> (r: Result<
        Self,
        ParseIntErr,
    >) {
        match parse_magnitude(u, Width::W64, neg_max_check, pos_max_check) {
            Ok(magnitude) => Ok(magnitude as u64),
            Err(e) => Err(e),
        }
    }
}

impl Biscuit for u32 {
    open spec fn width() -> Width {
        Width::W32
    }

    open spec fn signed() -> bool {
        false
    }

    open spec fn as_int(self) -> int {
        self as int
    }

    #[inline]
    fn parse_decimal(u: &[u8]) -> (r: Result<Self, ParseIntErr>) {
        Self::unsinged_decimal_core(u, false, false)
    }

    fn unsinged_decimal_core(u: &[u8], neg_max_check: bool, pos_max_check: bool) -> (r: Result<
        Self,
        ParseIntErr,
    >) {
        match parse_magnitude(u, Width::W32, neg_max_check, pos_max_check) {
            Ok(magnitude) => Ok(magnitude as u32),
            Err(e) => Err(e),
        }
    }
}

impl Biscuit for u16 {
    open spec fn width() -> Width {
        Width::W16
    }

    open spec fn signed() -> bool {
        false
    }

    open spec fn as_int(self) -> int {
        self as int
    }

    #[inline]
    fn parse_decimal(u: &[u8]) -> (r: Result<Self, ParseIntErr>) {
        Self::unsinged_decimal_core(u, false, false)
    }

    fn unsinged_decimal_core(u: &[u8], neg_max_check: bool, pos_max_check: bool) -> (r: Result<
        Self,
        ParseIntErr,
    >) {
        match parse_magnitude(u, Width::W16, neg_max_check, pos_max_check) {
            Ok(magnitude) => Ok(magnitude as u16),
            Err(e) => Err(e),
        }
    }
}

impl Biscuit for u8 {
    open spec fn width() -> Width {
        Width::W8
    }

    open spec fn signed() -> bool {
        false
    }

    open spec fn as_int(self) -> int {
        self as int
    }

    #[inline]
    fn parse_decimal(u: &[u8]) -> (r: Result<Self, ParseIntErr>) {
        Self::unsinged_decimal_core(u, false, false)
    }

    fn unsinged_decimal_core(u: &[u8], neg_max_check: bool, pos_max_check: bool) -> (r: Result<
        Self,
        ParseIntErr,
    >) {
        match parse_magnitude(u, Width::W8, neg_max_check, pos_max_check) {
            Ok(magnitude) => Ok(magnitude as u8),
            Err(e) => Err(e),
        }
    }
}

} // verus!
