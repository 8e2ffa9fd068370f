use vstd::prelude::*;
use vstd::slice::slice_subrange;
use crate::decimal::{
    all_digits, decimal_value, is_digit, lemma_all_digits_subrange, lemma_decimal_value_concat,
    pow10,
};
use crate::integer::{has_minus, unsigned_part, wrap_signed};
use crate::integer_decimal::{
    lemma_signed_bits_i128, lemma_signed_bits_i16, lemma_signed_bits_i32, lemma_signed_bits_i64,
};
use crate::unsigned::{fold_unchecked, lemma_fold_value_prefix};
use crate::width::Width;
use crate::BiscuitParser;

verus! {

/// How many bytes stand before the first byte of `s` that equals `b`; the
/// length of `s` if none does.
pub open spec fn first_index_of(s: Seq<u8>, b: u8) -> nat
    decreases s.len(),
{
    if s.len() == 0 || s[0] == b {
        0
    } else {
        1 + first_index_of(s.skip(1), b)
    }
}

/// The span without its decimal point, which stands `fraction_length` bytes
/// before the end; all of the span where `fraction_length` is zero.
pub open spec fn without_point(s: Seq<u8>, fraction_length: nat) -> Seq<u8> {
    if fraction_length == 0 {
        s
    } else {
        s.take(s.len() - fraction_length) + s.skip(s.len() - fraction_length + 1)
    }
}

/// Whether the span is clean decimal text for the given fraction length:
/// digits, and one decimal point `fraction_length` bytes before the end
/// unless `fraction_length` is zero.
pub open spec fn clean_fixed_point(s: Seq<u8>, fraction_length: nat) -> bool {
    &&& fraction_length <= s.len()
    &&& fraction_length > 0 ==> s[s.len() - fraction_length] == 0x2e
    &&& all_digits(without_point(s, fraction_length))
}

/// The number that the digits of the span write when the decimal point is
/// left out.
pub open spec fn mantissa(s: Seq<u8>, fraction_length: nat) -> nat {
    decimal_value(without_point(s, fraction_length))
}

/// The distance from the decimal point to the end of the span that a parser
/// works with: one more than the number of fraction digits it was told, or
/// what the place of the first point in the span gives, zero without one.
pub open spec fn fraction_span_spec(parser: BiscuitParser, s: Seq<u8>) -> nat {
    match parser.fraction_length {
        Some(known) => (known + 1) as nat,
        None => (s.len() - first_index_of(s, 0x2e)) as nat,
    }
}

/// The count of bytes before the first `b` is the place where the first `b`
/// stands, or the length of the span where none does.
pub proof fn lemma_first_index_of(s: Seq<u8>, b: u8, k: nat)
    requires
        k <= s.len(),
        forall|j: int| 0 <= j < k ==> s[j] != b,
        k < s.len() ==> s[k as int] == b,
    ensures
        first_index_of(s, b) == k,
    decreases s.len(),
{
    if k > 0 {
        let rest = s.skip(1);
        assert forall|j: int| 0 <= j < k - 1 implies rest[j] != b by {
            assert(rest[j] == s[j + 1]);
        }
        if k < s.len() {
            assert(rest[k - 1] == s[k as int]);
        }
        lemma_first_index_of(rest, b, (k - 1) as nat);
    }
}

/// Calls `memchr::memchr`, which searches `haystack` for `needle`: it
/// returns the index of the first byte that equals `needle`, and nothing
/// when no byte does.
#[verifier::external_body]
fn find_first(needle: u8, haystack: &[u8]) -> (found: Option<usize>)
    ensures
        match found {
            Some(index) => index < haystack@.len() && haystack@[index as int] == needle
                && forall|j: int| 0 <= j < index ==> haystack@[j] != needle,
            None => forall|j: int| 0 <= j < haystack@.len() ==> haystack@[j] != needle,
        },
{
    memchr::memchr(needle, haystack)
}

/// Folds the digits before the decimal point and then those behind it into
/// one number, without validating a byte: the digits of `input` as one
/// number, the point left out. Nothing is returned for a number above
/// `u128::MAX`.
fn fold_around_point(input: &[u8], fraction_length: usize) -> (value: Option<u128>)
    requires
        clean_fixed_point(input@, fraction_length as nat),
    ensures
        value.is_some() == (mantissa(input@, fraction_length as nat) <= u128::MAX),
        value matches Some(number) ==> number == mantissa(input@, fraction_length as nat),
{
    let length = input.len();
    if fraction_length == 0 {
        proof {
            assert(0 * pow10(input@.len()) == 0);
        }
        fold_unchecked(0, input)
    } else {
        let point = length - fraction_length;
        let whole = slice_subrange(input, 0, point);
        let fraction = slice_subrange(input, point + 1, length);
        proof {
            let digits = without_point(input@, fraction_length as nat);
            assert(whole@ =~= digits.take(point as int));
            assert(fraction@ =~= digits.skip(point as int));
            assert(whole@ + fraction@ =~= digits);
            lemma_all_digits_subrange(digits, 0, point as int);
            lemma_all_digits_subrange(digits, point as int, digits.len() as int);
            assert(digits.subrange(0, point as int) =~= whole@);
            assert(digits.subrange(point as int, digits.len() as int) =~= fraction@);
            lemma_decimal_value_concat(whole@, fraction@);
            lemma_fold_value_prefix(0, digits, point as int);
            assert(0 * pow10(whole@.len()) == 0);
            assert(0 * pow10(digits.len()) == 0);
        }
        match fold_unchecked(0, whole) {
            Some(high) => fold_unchecked(high, fraction),
            None => None,
        }
    }
}

impl BiscuitParser {
    /// A parser that looks for the decimal point itself.
    pub fn new() -> (parser: Self)
        ensures
            parser.fraction_length.is_none(),
    {
        BiscuitParser { fraction_length: None }
    }

    /// A parser for spans known to end in `n` fraction digits: it does not
    /// look for the decimal point.
    pub fn with_known_fraction_length(n: usize) -> (parser: Self)
        ensures
            parser.fraction_length == Some(n),
    {
        BiscuitParser { fraction_length: Some(n) }
    }

    /// The distance from the decimal point of `input` to its end: one more
    /// than the known number of fraction digits, or else found by searching
    /// for the first point; zero where there is none.
    pub fn fraction_span(&self, input: &[u8]) -> (span: usize)
        requires
            self.fraction_length matches Some(known) ==> known < usize::MAX,
        ensures
            span == fraction_span_spec(*self, input@),
    {
        match self.fraction_length {
            Some(known) => known + 1,
            None => {
                let length = input.len();
                match find_first(0x2e, input) {
                    Some(index) => {
                        proof {
                            lemma_first_index_of(input@, 0x2e, index as nat);
                        }
                        length - index
                    },
                    None => {
                        proof {
                            lemma_first_index_of(input@, 0x2e, length as nat);
                        }
                        0
                    },
                }
            },
        }
    }

    /// Whether `input` is clean decimal text for the given fraction length:
    /// what the conversions of this parser ask of their input.
    pub fn is_clean(&self, input: &[u8], fraction_length: usize) -> (clean: bool)
        ensures
            clean == clean_fixed_point(input@, fraction_length as nat),
    {
        let length = input.len();
        if fraction_length > length {
            return false;
        }
        let point = length - fraction_length;
        if fraction_length > 0 && input[point] != 0x2e {
            return false;
        }
        let ghost digits = without_point(input@, fraction_length as nat);
        let mut i: usize = 0;
        while i < length
            invariant
                length == input@.len(),
                fraction_length <= length,
                point == length - fraction_length,
                digits == without_point(input@, fraction_length as nat),
                i <= length,
                forall|j: int|
                    0 <= j < i && !(fraction_length > 0 && j == point) ==> is_digit(input@[j]),
            decreases length - i,
        {
            if !(fraction_length > 0 && i == point) && !(input[i] >= 0x30 && input[i] <= 0x39) {
                proof {
                    if fraction_length == 0 || i < point {
                        assert(digits[i as int] == input@[i as int]);
                    } else {
                        assert(digits[i - 1] == input@[i as int]);
                    }
                }
                return false;
            }
            i += 1;
        }
        proof {
            assert forall|j: int| 0 <= j < digits.len() implies is_digit(#[trigger] digits[j]) by {
                if fraction_length == 0 || j < point {
                    assert(digits[j] == input@[j]);
                } else {
                    assert(digits[j] == input@[j + 1]);
                }
            }
        }
        true
    }

    /// The digits of `input` as one number, the decimal point left out, if
    /// `input` is clean decimal text for the given fraction length and the
    /// number fits; nothing otherwise.
    pub fn checked_mantissa(&self, input: &[u8], fraction_length: usize) -> (value: Option<u128>)
        ensures
            value.is_some() == (clean_fixed_point(input@, fraction_length as nat) && mantissa(
                input@,
                fraction_length as nat,
            ) <= u128::MAX),
            value matches Some(number) ==> number == mantissa(input@, fraction_length as nat),
    {
        if self.is_clean(input, fraction_length) {
            fold_around_point(input, fraction_length)
        } else {
            None
        }
    }

    /// The digits of `input` as one number, the decimal point left out,
    /// without validating a byte. The caller answers for `input` to be clean
    /// decimal text of `length` bytes whose point stands `fraction_length`
    /// bytes before the end, and for the number to fit.
    #[inline]
    pub fn float_to_u128_core(&self, input: &[u8], length: usize, fraction_length: usize) -> (value:
        u128)
        requires
            length == input@.len(),
            clean_fixed_point(input@, fraction_length as nat),
            mantissa(input@, fraction_length as nat) <= u128::MAX,
        ensures
            value == mantissa(input@, fraction_length as nat),
    {
        fold_around_point(input, fraction_length).unwrap()
    }

    /// The digits of `input` as one `u64`, the decimal point left out,
    /// without validating a byte. The caller answers for `input` to be clean
    /// decimal text and for the number to fit.
    #[inline]
    #[must_use]
    pub fn float_to_u64_core(&self, input: &[u8], length: usize, fraction_length: usize) -> (value:
        u64)
        requires
            length == input@.len(),
            clean_fixed_point(input@, fraction_length as nat),
            mantissa(input@, fraction_length as nat) <= u64::MAX,
        ensures
            value == mantissa(input@, fraction_length as nat),
    {
        self.float_to_u128_core(input, length, fraction_length) as u64
    }

    /// The digits of `input` as one `u32`, the decimal point left out,
    /// without validating a byte. The caller answers for `input` to be clean
    /// decimal text and for the number to fit.
    #[inline]
    #[must_use]
    pub fn float_to_u32_core(&self, input: &[u8], length: usize, fraction_length: usize) -> (value:
        u32)
        requires
            length == input@.len(),
            clean_fixed_point(input@, fraction_length as nat),
            mantissa(input@, fraction_length as nat) <= u32::MAX,
        ensures
            value == mantissa(input@, fraction_length as nat),
    {
        self.float_to_u128_core(input, length, fraction_length) as u32
    }

    /// The digits of `input` as one `u16`, the decimal point left out,
    /// without validating a byte. The caller answers for `input` to be clean
    /// decimal text and for the number to fit.
    #[inline]
    #[must_use]
    pub fn float_to_u16_core(&self, input: &[u8], length: usize, fraction_length: usize) -> (value:
        u16)
        requires
            length == input@.len(),
            clean_fixed_point(input@, fraction_length as nat),
            mantissa(input@, fraction_length as nat) <= u16::MAX,
        ensures
            value == mantissa(input@, fraction_length as nat),
    {
        self.float_to_u128_core(input, length, fraction_length) as u16
    }

    /// The digits of `input` as one `i128`, the decimal point left out and a
    /// leading minus honoured, without validating a byte and without holding
    /// the magnitude against the signed limits: it is read in two's
    /// complement. The caller answers for `input` to be clean decimal text
    /// behind the sign and for the magnitude to fit the unsigned type.
    #[inline]
    #[must_use]
    pub fn float_to_i128(&self, input: &[u8], length: usize, fraction_length: usize) -> (value:
        i128)
        requires
            length == input@.len(),
            length >= 1,
            clean_fixed_point(unsigned_part(input@), fraction_length as nat),
            mantissa(unsigned_part(input@), fraction_length as nat) <= u128::MAX,
        ensures
            value == wrap_signed(
                if has_minus(input@) {
                    -(mantissa(unsigned_part(input@), fraction_length as nat) as int)
                } else {
                    mantissa(unsigned_part(input@), fraction_length as nat) as int
                },
                Width::W128,
            ),
    {
        if input[0] == 0x2d {
            let magnitude = self.float_to_u128_core(
                slice_subrange(input, 1, length),
                length - 1,
                fraction_length,
            );
            proof {
                lemma_signed_bits_i128(magnitude);
            }
            (!(magnitude as i128)).wrapping_add(1)
        } else {
            let magnitude = self.float_to_u128_core(input, length, fraction_length);
            proof {
                lemma_signed_bits_i128(magnitude);
            }
            magnitude as i128
        }
    }

    /// The digits of `input` as one `i64`, the decimal point left out and a
    /// leading minus honoured, without validating a byte and without holding
    /// the magnitude against the signed limits: it is read in two's
    /// complement. The caller answers for `input` to be clean decimal text
    /// behind the sign and for the magnitude to fit the unsigned type.
    #[inline]
    #[must_use]
    pub fn float_to_i64(&self, input: &[u8], length: usize, fraction_length: usize) -> (value:
        i64)
        requires
            length == input@.len(),
            length >= 1,
            clean_fixed_point(unsigned_part(input@), fraction_length as nat),
            mantissa(unsigned_part(input@), fraction_length as nat) <= u64::MAX,
        ensures
            value == wrap_signed(
                if has_minus(input@) {
                    -(mantissa(unsigned_part(input@), fraction_length as nat) as int)
                } else {
                    mantissa(unsigned_part(input@), fraction_length as nat) as int
                },
                Width::W64,
            ),
    {
        if input[0] == 0x2d {
            let magnitude = self.float_to_u64_core(
                slice_subrange(input, 1, length),
                length - 1,
                fraction_length,
            );
            proof {
                lemma_signed_bits_i64(magnitude);
            }
            (!(magnitude as i64)).wrapping_add(1)
        } else {
            let magnitude = self.float_to_u64_core(input, length, fraction_length);
            proof {
                lemma_signed_bits_i64(magnitude);
            }
            magnitude as i64
        }
    }

    /// The digits of `input` as one `i32`, the decimal point left out and a
    /// leading minus honoured, without validating a byte and without holding
    /// the magnitude against the signed limits: it is read in two's
    /// complement. The caller answers for `input` to be clean decimal text
    /// behind the sign and for the magnitude to fit the unsigned type.
    #[inline]
    #[must_use]
    pub fn float_to_i32(&self, input: &[u8], length: usize, fraction_length: usize) -> (value:
        i32)
        requires
            length == input@.len(),
            length >= 1,
            clean_fixed_point(unsigned_part(input@), fraction_length as nat),
            mantissa(unsigned_part(input@), fraction_length as nat) <= u32::MAX,
        ensures
            value == wrap_signed(
                if has_minus(input@) {
                    -(mantissa(unsigned_part(input@), fraction_length as nat) as int)
                } else {
                    mantissa(unsigned_part(input@), fraction_length as nat) as int
                },
                Width::W32,
            ),
    {
        if input[0] == 0x2d {
            let magnitude = self.float_to_u32_core(
                slice_subrange(input, 1, length),
                length - 1,
                fraction_length,
            );
            proof {
                lemma_signed_bits_i32(magnitude);
            }
            (!(magnitude as i32)).wrapping_add(1)
        } else {
            let magnitude = self.float_to_u32_core(input, length, fraction_length);
            proof {
                lemma_signed_bits_i32(magnitude);
            }
            magnitude as i32
        }
    }

    /// The digits of `input` as one `i16`, the decimal point left out and a
    /// leading minus honoured, without validating a byte and without holding
    /// the magnitude against the signed limits: it is read in two's
    /// complement. The caller answers for `input` to be clean decimal text
    /// behind the sign and for the magnitude to fit the unsigned type.
    #[inline]
    #[must_use]
    pub fn float_to_i16(&self, input: &[u8], length: usize, fraction_length: usize) -> (value:
        i16)
        requires
            length == input@.len(),
            length >= 1,
            clean_fixed_point(unsigned_part(input@), fraction_length as nat),
            mantissa(unsigned_part(input@), fraction_length as nat) <= u16::MAX,
        ensures
            value == wrap_signed(
                if has_minus(input@) {
                    -(mantissa(unsigned_part(input@), fraction_length as nat) as int)
                } else {
                    mantissa(unsigned_part(input@), fraction_length as nat) as int
                },
                Width::W16,
            ),
    {
        if input[0] == 0x2d {
            let magnitude = self.float_to_u16_core(
                slice_subrange(input, 1, length),
                length - 1,
                fraction_length,
            );
            proof {
                lemma_signed_bits_i16(magnitude);
            }
            (!(magnitude as i16)).wrapping_add(1)
        } else {
            let magnitude = self.float_to_u16_core(input, length, fraction_length);
            proof {
                lemma_signed_bits_i16(magnitude);
            }
            magnitude as i16
        }
    }
}

} // verus!
