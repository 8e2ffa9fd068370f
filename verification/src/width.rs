use vstd::prelude::*;
use crate::decimal::pow10;
use crate::exponent::lemma_pow10_table;

verus! {

/// The integer widths that the parser serves. A width carries the exact
/// limits of its unsigned and of its signed integer type.
#[derive(Debug, Clone, Copy, PartialEq, Eq, Structural)]
pub enum Width {
    /// 8 bits: `u8` and `i8`.
    W8,
    /// 16 bits: `u16` and `i16`.
    W16,
    /// 32 bits: `u32` and `i32`.
    W32,
    /// 64 bits: `u64` and `i64`.
    W64,
    /// 128 bits: `u128` and `i128`.
    W128,
}

impl Width {
    /// The number of bits.
    pub open spec fn bits(self) -> nat {
        match self {
            Width::W8 => 8,
            Width::W16 => 16,
            Width::W32 => 32,
            Width::W64 => 64,
            Width::W128 => 128,
        }
    }

    /// The largest number of significant decimal digits that is accepted:
    /// the digit count of the largest unsigned value.
    pub open spec fn digits(self) -> nat {
        match self {
            Width::W8 => 3,
            Width::W16 => 5,
            Width::W32 => 10,
            Width::W64 => 20,
            Width::W128 => 39,
        }
    }

    /// The digit count of the largest signed value: below it no signed
    /// limit can be passed.
    pub open spec fn signed_digits(self) -> nat {
        match self {
            Width::W8 => 3,
            Width::W16 => 5,
            Width::W32 => 10,
            Width::W64 => 19,
            Width::W128 => 39,
        }
    }

    /// The largest value of the unsigned type.
    pub open spec fn unsigned_limit(self) -> nat {
        match self {
            Width::W8 => u8::MAX as nat,
            Width::W16 => u16::MAX as nat,
            Width::W32 => u32::MAX as nat,
            Width::W64 => u64::MAX as nat,
            Width::W128 => u128::MAX as nat,
        }
    }

    /// The largest value of the signed type.
    pub open spec fn positive_limit(self) -> nat {
        match self {
            Width::W8 => i8::MAX as nat,
            Width::W16 => i16::MAX as nat,
            Width::W32 => i32::MAX as nat,
            Width::W64 => i64::MAX as nat,
            Width::W128 => i128::MAX as nat,
        }
    }

    /// The absolute value of the smallest value of the signed type.
    pub open spec fn negative_limit(self) -> nat {
        match self {
            Width::W8 => (-(i8::MIN as int)) as nat,
            Width::W16 => (-(i16::MIN as int)) as nat,
            Width::W32 => (-(i32::MIN as int)) as nat,
            Width::W64 => (-(i64::MIN as int)) as nat,
            Width::W128 => (-(i128::MIN as int)) as nat,
        }
    }

    /// The largest number of significant decimal digits that is accepted.
    #[inline]
    pub fn max_digits(self) -> (count: usize)
        ensures
            count == self.digits(),
    {
        match self {
            Width::W8 => 3,
            Width::W16 => 5,
            Width::W32 => 10,
            Width::W64 => 20,
            Width::W128 => 39,
        }
    }

    /// The digit count of the largest signed value.
    #[inline]
    pub fn max_signed_digits(self) -> (count: usize)
        ensures
            count == self.signed_digits(),
    {
        match self {
            Width::W8 => 3,
            Width::W16 => 5,
            Width::W32 => 10,
            Width::W64 => 19,
            Width::W128 => 39,
        }
    }

    /// The largest value of the unsigned type.
    #[inline]
    pub fn unsigned_max(self) -> (limit: u128)
        ensures
            limit == self.unsigned_limit(),
    {
        match self {
            Width::W8 => 255,
            Width::W16 => 65535,
            Width::W32 => 4294967295,
            Width::W64 => 18446744073709551615,
            Width::W128 => 340282366920938463463374607431768211455,
        }
    }

    /// The largest value of the signed type.
    #[inline]
    pub fn signed_max(self) -> (limit: u128)
        ensures
            limit == self.positive_limit(),
    {
        match self {
            Width::W8 => 127,
            Width::W16 => 32767,
            Width::W32 => 2147483647,
            Width::W64 => 9223372036854775807,
            Width::W128 => 170141183460469231731687303715884105727,
        }
    }

    /// The absolute value of the smallest value of the signed type.
    #[inline]
    pub fn signed_min_abs(self) -> (limit: u128)
        ensures
            limit == self.negative_limit(),
    {
        match self {
            Width::W8 => 128,
            Width::W16 => 32768,
            Width::W32 => 2147483648,
            Width::W64 => 9223372036854775808,
            Width::W128 => 170141183460469231731687303715884105728,
        }
    }
}

/// The digit counts of a width are those of its limits: the largest unsigned
/// value has exactly `digits` decimal digits, the largest signed value and
/// the absolute value of the smallest have exactly `signed_digits`, and the
/// two signed limits are one apart.
pub proof fn lemma_width_limits(width: Width)
    ensures
        pow10((width.digits() - 1) as nat) <= width.unsigned_limit() < pow10(width.digits()),
        pow10((width.signed_digits() - 1) as nat) <= width.positive_limit() < pow10(
            width.signed_digits(),
        ),
        width.negative_limit() == width.positive_limit() + 1,
        width.negative_limit() < pow10(width.signed_digits()),
        width.unsigned_limit() == 2 * width.positive_limit() + 1,
        width.signed_digits() <= width.digits() <= 39,
{
    lemma_pow10_table();
}

} // verus!
