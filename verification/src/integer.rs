use vstd::prelude::*;
use vstd::slice::slice_subrange;
use crate::decimal::all_digits;
use crate::integer_decimal::{
    lemma_signed_bits_i128, lemma_signed_bits_i16, lemma_signed_bits_i32, lemma_signed_bits_i64,
};
use crate::unsigned::unchecked_unsigned_spec;
use crate::width::Width;
use crate::BiscuitConverter;

verus! {

/// Whether a span starts with a minus sign.
pub open spec fn has_minus(s: Seq<u8>) -> bool {
    s.len() > 0 && s[0] == 0x2d
}

/// The part of a span behind its minus sign, or all of it if it has none.
pub open spec fn unsigned_part(s: Seq<u8>) -> Seq<u8> {
    if has_minus(s) {
        s.skip(1)
    } else {
        s
    }
}

/// A number brought into the signed range of a width by adding or taking
/// away `2^bits` once, as two's complement arithmetic does.
pub open spec fn wrap_signed(x: int, width: Width) -> int {
    if x > width.positive_limit() {
        x - (width.unsigned_limit() + 1)
    } else if x < -(width.negative_limit() as int) {
        x + (width.unsigned_limit() + 1)
    } else {
        x
    }
}

/// What converting a span to a signed integer of a width gives: nothing
/// where the part behind the sign gives nothing as an unsigned integer, else
/// its value, negated behind a minus, in two's complement. A magnitude within
/// the signed range comes back as it is.
pub open spec fn unchecked_signed_spec(s: Seq<u8>, width: Width) -> Option<int> {
    match unchecked_unsigned_spec(unsigned_part(s), width) {
        Some(magnitude) => Some(
            wrap_signed(
                if has_minus(s) {
                    -(magnitude as int)
                } else {
                    magnitude as int
                },
                width,
            ),
        ),
        None => None,
    }
}

impl BiscuitConverter {
    /// Converts a span of digits, behind an optional minus, to an `i128`
    /// without validating a byte and without holding the magnitude against
    /// the signed limits. The caller answers for the span to hold only
    /// digits behind the sign.
    #[inline]
    pub fn to_i128(self, input: &[u8]) -> (r: Option<i128>)
        requires
            all_digits(unsigned_part(input@)),
        ensures
            r.is_some() == unchecked_signed_spec(input@, Width::W128).is_some(),
            r matches Some(value) ==> unchecked_signed_spec(input@, Width::W128) == Some(
                value as int,
            ),
    {
        if input.is_empty() || (input.len() == 1 && input[0] == 0x2d) {
            return None;
        }
        if input[0] == 0x2d {
            match self.to_u128(slice_subrange(input, 1, input.len())) {
                Some(val) => {
                    proof {
                        lemma_signed_bits_i128(val);
                    }
                    Some((!(val as i128)).wrapping_add(1))
                },
                None => None,
            }
        } else {
            match self.to_u128(input) {
                Some(val) => {
                    proof {
                        lemma_signed_bits_i128(val);
                    }
                    Some(val as i128)
                },
                None => None,
            }
        }
    }

    /// Converts a span of digits, behind an optional minus, to an `i64`
    /// without validating a byte and without holding the magnitude against
    /// the signed limits. The caller answers for the span to hold only
    /// digits behind the sign.
    #[inline]
    pub fn to_i64(self, input: &[u8]) -> (r: Option<i64>)
        requires
            all_digits(unsigned_part(input@)),
        ensures
            r.is_some() == unchecked_signed_spec(input@, Width::W64).is_some(),
            r matches Some(value) ==> unchecked_signed_spec(input@, Width::W64) == Some(
                value as int,
            ),
    {
        if input.is_empty() || (input.len() == 1 && input[0] == 0x2d) {
            return None;
        }
        if input[0] == 0x2d {
            match self.to_u64(slice_subrange(input, 1, input.len())) {
                Some(val) => {
                    proof {
                        lemma_signed_bits_i64(val);
                    }
                    Some((!(val as i64)).wrapping_add(1))
                },
                None => None,
            }
        } else {
            match self.to_u64(input) {
                Some(val) => {
                    proof {
                        lemma_signed_bits_i64(val);
                    }
                    Some(val as i64)
                },
                None => None,
            }
        }
    }

    /// Converts a span of digits, behind an optional minus, to an `i32`
    /// without validating a byte and without holding the magnitude against
    /// the signed limits. The caller answers for the span to hold only
    /// digits behind the sign.
    #[inline]
    pub fn to_i32(self, input: &[u8]) -> (r: Option<i32>)
        requires
            all_digits(unsigned_part(input@)),
        ensures
            r.is_some() == unchecked_signed_spec(input@, Width::W32).is_some(),
            r matches Some(value) ==> unchecked_signed_spec(input@, Width::W32) == Some(
                value as int,
            ),
    {
        if input.is_empty() || (input.len() == 1 && input[0] == 0x2d) {
            return None;
        }
        if input[0] == 0x2d {
            match self.to_u32(slice_subrange(input, 1, input.len())) {
                Some(val) => {
                    proof {
                        lemma_signed_bits_i32(val);
                    }
                    Some((!(val as i32)).wrapping_add(1))
                },
                None => None,
            }
        } else {
            match self.to_u32(input) {
                Some(val) => {
                    proof {
                        lemma_signed_bits_i32(val);
                    }
                    Some(val as i32)
                },
                None => None,
            }
        }
    }

    /// Converts a span of digits, behind an optional minus, to an `i16`
    /// without validating a byte and without holding the magnitude against
    /// the signed limits. The caller answers for the span to hold only
    /// digits behind the sign.
    #[inline]
    pub fn to_i16(self, input: &[u8]) -> (r: Option<i16>)
        requires
            all_digits(unsigned_part(input@)),
        ensures
            r.is_some() == unchecked_signed_spec(input@, Width::W16).is_some(),
            r matches Some(value) ==> unchecked_signed_spec(input@, Width::W16) == Some(
                value as int,
            ),
    {
        if input.is_empty() || (input.len() == 1 && input[0] == 0x2d) {
            return None;
        }
        if input[0] == 0x2d {
            match self.to_u16(slice_subrange(input, 1, input.len())) {
                Some(val) => {
                    proof {
                        lemma_signed_bits_i16(val);
                    }
                    Some((!(val as i16)).wrapping_add(1))
                },
                None => None,
            }
        } else {
            match self.to_u16(input) {
                Some(val) => {
                    proof {
                        lemma_signed_bits_i16(val);
                    }
                    Some(val as i16)
                },
                None => None,
            }
        }
    }

}

} // verus!
