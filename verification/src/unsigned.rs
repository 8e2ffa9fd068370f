use vstd::prelude::*;
use vstd::slice::slice_subrange;
use crate::decimal::{
    all_digits, decimal_value, lemma_all_digits_subrange, lemma_decimal_value_concat,
    lemma_digit_of, lemma_leading_zeros_facts, lemma_pow10_adds, lemma_pow10_monotonic,
    lemma_strip_zeros_value, pow10, strip_zeros,
};
use crate::dispatch::{count_leading_zeros, group_size};
use crate::exponent::{exponent_u128, lemma_pow10_table};
use crate::little_endian::{
    eight_to_u64, four_to_u32, le_bytes_to_u128, le_bytes_to_u16, le_bytes_to_u32,
    le_bytes_to_u64, sixteen_to_u128, two_to_u16, zero_padded,
};
use crate::width::Width;
use crate::BiscuitConverter;

verus! {

/// What converting a span of digits to an unsigned integer of a width
/// gives: nothing for the empty span and for a value above the width's
/// largest, else the value that the digits write.
pub open spec fn unchecked_unsigned_spec(s: Seq<u8>, width: Width) -> Option<nat> {
    if s.len() == 0 || decimal_value(s) > width.unsigned_limit() {
        None
    } else {
        Some(decimal_value(s))
    }
}

/// Decodes the next group of `digits` at `pos` without validating it:
/// sixteen, eight, four, two bytes or one, the largest that fits in what is
/// left. Returns the group's value and its size.
#[inline]
pub fn decode_group_unchecked(digits: &[u8], pos: usize) -> (r: (u128, usize))
    requires
        pos < digits@.len(),
        all_digits(digits@),
    ensures
        r.1 == group_size((digits@.len() - pos) as nat),
        r.0 == decimal_value(digits@.subrange(pos as int, pos + r.1)),
{
    let rest = digits.len() - pos;
    if rest >= 16 {
        let group = slice_subrange(digits, pos, pos + 16);
        assert(zero_padded(group@, 16) =~= group@);
        (sixteen_to_u128(le_bytes_to_u128(group)), 16)
    } else if rest >= 8 {
        let group = slice_subrange(digits, pos, pos + 8);
        assert(zero_padded(group@, 8) =~= group@);
        (eight_to_u64(le_bytes_to_u64(group)) as u128, 8)
    } else if rest >= 4 {
        let group = slice_subrange(digits, pos, pos + 4);
        assert(zero_padded(group@, 4) =~= group@);
        (four_to_u32(le_bytes_to_u32(group)) as u128, 4)
    } else if rest >= 2 {
        let group = slice_subrange(digits, pos, pos + 2);
        assert(zero_padded(group@, 2) =~= group@);
        (two_to_u16(le_bytes_to_u16(group)) as u128, 2)
    } else {
        proof {
            let one = digits@.subrange(pos as int, pos + 1);
            assert(one.last() == digits@[pos as int]);
            assert(decimal_value(one.drop_last()) == 0);
            lemma_digit_of(digits@[pos as int]);
        }
        ((digits[pos] - 0x30) as u128, 1)
    }
}

/// What folding a span of digits behind a number gives: the number moved up
/// by as many decimal places as the span has digits, plus the span's value.
pub open spec fn fold_value(start: nat, s: Seq<u8>) -> nat {
    start * pow10(s.len()) + decimal_value(s)
}

/// Folding a prefix of a span behind a number gives at most what folding the
/// whole span gives.
pub proof fn lemma_fold_value_prefix(start: nat, s: Seq<u8>, k: int)
    requires
        0 <= k <= s.len(),
    ensures
        fold_value(start, s.take(k)) <= fold_value(start, s),
{
    let head = s.take(k);
    let tail = s.skip(k);
    assert(head + tail =~= s);
    lemma_decimal_value_concat(head, tail);
    lemma_pow10_adds(head.len(), tail.len());
    lemma_pow10_monotonic(0, tail.len());
    let p = pow10(head.len());
    let q = pow10(tail.len());
    let v = decimal_value(head);
    assert(start * (p * q) + v * q == (start * p + v) * q) by (nonlinear_arith);
    assert(start * p + v <= (start * p + v) * q) by (nonlinear_arith)
        requires
            1 <= q,
    ;
}

/// Folding a span in two steps, a prefix and then the group behind it, gives
/// what folding the two together gives.
pub proof fn lemma_fold_value_step(start: nat, s: Seq<u8>, pos: int, size: int)
    requires
        0 <= pos,
        0 < size,
        pos + size <= s.len(),
    ensures
        fold_value(start, s.take(pos + size)) == fold_value(start, s.take(pos)) * pow10(size as nat)
            + decimal_value(s.subrange(pos, pos + size)),
{
    let head = s.take(pos);
    let group = s.subrange(pos, pos + size);
    assert(s.take(pos + size) =~= head + group);
    lemma_decimal_value_concat(head, group);
    lemma_pow10_adds(pos as nat, size as nat);
    let p = pow10(pos as nat);
    let q = pow10(size as nat);
    let v = decimal_value(head);
    assert(start * (p * q) + v * q == (start * p + v) * q) by (nonlinear_arith);
}

/// Folds a span of digits behind `start` without validating a byte: the
/// span is cut into groups of sixteen, eight, four, two bytes and one,
/// largest first, and the group values are folded from the left as
/// `sum * 10^size + value` with checked arithmetic. Nothing is returned for
/// a value above `u128::MAX`.
pub fn fold_unchecked(start: u128, digits: &[u8]) -> (r: Option<u128>)
    requires
        all_digits(digits@),
    ensures
        r.is_some() == (fold_value(start as nat, digits@) <= u128::MAX),
        r matches Some(value) ==> value == fold_value(start as nat, digits@),
{
    let n = digits.len();
    let mut pos: usize = 0;
    let mut sum: u128 = start;
    proof {
        assert(digits@.take(0).len() == 0);
        assert(pow10(0) == 1);
    }
    while pos < n
        invariant
            n == digits@.len(),
            pos <= n,
            all_digits(digits@),
            sum == fold_value(start as nat, digits@.take(pos as int)),
        decreases n - pos,
    {
        let (value, size) = decode_group_unchecked(digits, pos);
        proof {
            lemma_fold_value_step(start as nat, digits@, pos as int, size as int);
            lemma_fold_value_prefix(start as nat, digits@, pos + size);
            lemma_pow10_table();
            lemma_pow10_monotonic(size as nat, 38);
        }
        let folded = match sum.checked_mul(exponent_u128(size)) {
            Some(shifted) => shifted.checked_add(value),
            None => None,
        };
        match folded {
            Some(next) => {
                sum = next;
            },
            None => {
                return None;
            },
        }
        pos += size;
    }
    proof {
        assert(digits@.take(n as int) =~= digits@);
    }
    Some(sum)
}

/// Decodes a span of digits into its value without validating a byte.
/// Nothing is returned for a value above `u128::MAX`.
pub fn dispatch_unchecked(digits: &[u8]) -> (r: Option<u128>)
    requires
        all_digits(digits@),
    ensures
        r.is_some() == (decimal_value(digits@) <= u128::MAX),
        r matches Some(value) ==> value == decimal_value(digits@),
{
    assert(0 * pow10(digits@.len()) == 0);
    fold_unchecked(0, digits)
}

/// Converts a span of digits to its value, if the value is at most `limit`.
fn convert_unchecked(input: &[u8], limit: u128) -> (r: Option<u128>)
    requires
        all_digits(input@),
    ensures
        r.is_some() == (input@.len() > 0 && decimal_value(input@) <= limit),
        r matches Some(value) ==> value == decimal_value(input@),
{
    let n = input.len();
    if n == 0 {
        return None;
    }
    let start = count_leading_zeros(input);
    proof {
        lemma_leading_zeros_facts(input@);
        lemma_strip_zeros_value(input@);
        lemma_all_digits_subrange(input@, start as int, n as int);
    }
    let digits = slice_subrange(input, start, n);
    assert(digits@ =~= strip_zeros(input@));
    match dispatch_unchecked(digits) {
        Some(value) => if value <= limit {
            Some(value)
        } else {
            None
        },
        None => None,
    }
}

impl BiscuitConverter {
    /// Converts a span of digits to a `u64` without validating a byte. The
    /// caller answers for the span to hold only digits.
    pub fn to_u64(self, input: &[u8]) -> (r: Option<u64>)
        requires
            all_digits(input@),
        ensures
            r.is_some() == unchecked_unsigned_spec(input@, Width::W64).is_some(),
            r matches Some(value) ==> unchecked_unsigned_spec(input@, Width::W64) == Some(
                value as nat,
            ),
    {
        match convert_unchecked(input, 18446744073709551615) {
            Some(value) => Some(value as u64),
            None => None,
        }
    }

    /// Converts a span of digits to a `u128` without validating a byte. The
    /// caller answers for the span to hold only digits.
    pub fn to_u128(self, input: &[u8]) -> (r: Option<u128>)
        requires
            all_digits(input@),
        ensures
            r.is_some() == unchecked_unsigned_spec(input@, Width::W128).is_some(),
            r matches Some(value) ==> unchecked_unsigned_spec(input@, Width::W128) == Some(
                value as nat,
            ),
    {
        convert_unchecked(input, 340282366920938463463374607431768211455)
    }

    /// Converts a span of digits to a `u32` without validating a byte. The
    /// caller answers for the span to hold only digits.
    pub fn to_u32(self, input: &[u8]) -> (r: Option<u32>)
        requires
            all_digits(input@),
        ensures
            r.is_some() == unchecked_unsigned_spec(input@, Width::W32).is_some(),
            r matches Some(value) ==> unchecked_unsigned_spec(input@, Width::W32) == Some(
                value as nat,
            ),
    {
        match convert_unchecked(input, 4294967295) {
            Some(value) => Some(value as u32),
            None => None,
        }
    }

    /// Converts a span of digits to a `u16` without validating a byte. The
    /// caller answers for the span to hold only digits.
    pub fn to_u16(self, input: &[u8]) -> (r: Option<u16>)
        requires
            all_digits(input@),
        ensures
            r.is_some() == unchecked_unsigned_spec(input@, Width::W16).is_some(),
            r matches Some(value) ==> unchecked_unsigned_spec(input@, Width::W16) == Some(
                value as nat,
            ),
    {
        match convert_unchecked(input, 65535) {
            Some(value) => Some(value as u16),
            None => None,
        }
    }
}

} // verus!
