//! Decimal integer parsing with word-parallel bit manipulation.
//!
//! A span of ASCII digits is loaded into registers of sixteen, eight, four
//! and two bytes, each register is validated in one pass and reduced to its
//! binary value in a logarithmic number of rounds, and the group values are
//! folded into one magnitude that is held against the exact limits of the
//! integer width asked for.
use vstd::prelude::*;

pub mod arithematics;
pub mod decimal;
pub mod dispatch;
pub mod error;
pub mod exponent;
pub mod float;
pub mod integer;
pub mod integer_decimal;
pub mod laws;
pub mod little_endian;
pub mod little_endian_decimal;
pub mod unsigned;
pub mod unsigned_decimal;
pub mod width;

use crate::dispatch::{magnitude_spec, signed_spec, unsigned_spec};
use crate::error::ParseIntErr;
use crate::width::Width;

verus! {

/// The unchecked converter: it decodes spans that the caller knows to hold
/// clean decimal text, without validating a byte.
#[derive(Debug, Default, Clone, Copy)]
pub struct BiscuitConverter {}

/// The fixed-point front end: it reads the digits of a decimal number with
/// a point as one integer, to be scaled by the power of ten that the number
/// of fraction digits gives.
#[derive(Debug, Default, Clone, Copy)]
pub struct BiscuitParser {
    /// The number of fraction digits, where the caller knows it. Without it
    /// the decimal point is searched for.
    pub fraction_length: Option<usize>,
}

/// What parsing a span as an integer of a width gives, signed or not.
pub open spec fn parse_spec(s: Seq<u8>, width: Width, signed: bool) -> Result<int, ParseIntErr> {
    if signed {
        signed_spec(s, width)
    } else {
        unsigned_spec(s, width)
    }
}

/// What parsing a span without a sign gives in an integer type of a width.
/// A signed type holds no magnitude above its largest value, so for it the
/// positive limit is always checked.
pub open spec fn core_spec(
    s: Seq<u8>,
    width: Width,
    signed: bool,
    neg_max_check: bool,
    pos_max_check: bool,
) -> Result<int, ParseIntErr> {
    match magnitude_spec(s, width, neg_max_check, pos_max_check || signed) {
        Ok(magnitude) => Ok(magnitude as int),
        Err(e) => Err(e),
    }
}

/// Parser for decimal notation. It does not parse scientific notation.
pub trait Biscuit: Sized {
    /// The width of the integer type.
    spec fn width() -> Width;

    /// Whether the integer type is signed.
    spec fn signed() -> bool;

    /// The value as a mathematical number.
    spec fn as_int(self) -> int;

    /// Parses a span of ASCII bytes as a decimal integer: an optional
    /// leading minus for a signed type, then one digit or more, leading
    /// zeros allowed.
    fn parse_decimal(u: &[u8]) -> (r: Result<Self, ParseIntErr>)
        ensures
            match r {
                Ok(value) => parse_spec(u@, Self::width(), Self::signed()) == Ok::<
                    int,
                    ParseIntErr,
                >(value.as_int()),
                Err(e) => parse_spec(u@, Self::width(), Self::signed()) == Err::<
                    int,
                    ParseIntErr,
                >(e),
            },
    ;

    /// Parses a span of digits without a sign. With `neg_max_check` the
    /// magnitude is held against the absolute value of the smallest signed
    /// value of the width, with `pos_max_check` against the largest.
    fn unsinged_decimal_core(u: &[u8], neg_max_check: bool, pos_max_check: bool) -> (r: Result<
        Self,
        ParseIntErr,
    >)
        ensures
            match r {
                Ok(value) => core_spec(
                    u@,
                    Self::width(),
                    Self::signed(),
                    neg_max_check,
                    pos_max_check,
                ) == Ok::<int, ParseIntErr>(value.as_int()),
                Err(e) => core_spec(u@, Self::width(), Self::signed(), neg_max_check, pos_max_check)
                    == Err::<int, ParseIntErr>(e),
            },
    ;
}

} // verus!
