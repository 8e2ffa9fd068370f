use vstd::prelude::*;
use vstd::slice::slice_subrange;
use crate::decimal::{
    all_digits, decimal_value, is_digit, leading_zeros, lemma_decimal_value_bound,
    lemma_decimal_value_concat, lemma_digits_extend, lemma_digits_fail_in_part,
    lemma_leading_zeros_facts, lemma_leading_zeros_is, lemma_pow10_monotonic, pow10, strip_zeros,
};
use crate::error::ParseIntErr;
use crate::exponent::{exponent_u128, lemma_pow10_table};
use crate::little_endian_decimal::{
    checked_conversion_u128, checked_conversion_u16, checked_conversion_u32,
    checked_conversion_u64, checked_conversion_u8,
};
use crate::width::{lemma_width_limits, Width};

verus! {

/// The size of the next group to decode when `rest` bytes are left: the
/// largest of 16, 8, 4, 2 and 1 that fits.
pub open spec fn group_size(rest: nat) -> nat {
    if rest >= 16 {
        16
    } else if rest >= 8 {
        8
    } else if rest >= 4 {
        4
    } else if rest >= 2 {
        2
    } else {
        1
    }
}

/// What decoding a span of significant digits gives at a width. A span
/// longer than the width's digit count is rejected unread; then any byte
/// that is no digit; then a value above the unsigned limit.
pub open spec fn dispatch_spec(s: Seq<u8>, width: Width) -> Result<nat, ParseIntErr> {
    if s.len() > width.digits() {
        Err(ParseIntErr::Overflow)
    } else if !all_digits(s) {
        Err(ParseIntErr::NonDecimal)
    } else if decimal_value(s) > width.unsigned_limit() {
        Err(ParseIntErr::Overflow)
    } else {
        Ok(decimal_value(s))
    }
}

/// How a magnitude stands to the signed limits of a width. With
/// `neg_max_check` it is held against the absolute value of the smallest
/// signed value, then with `pos_max_check` against the largest.
pub open spec fn classify_spec(
    magnitude: nat,
    width: Width,
    neg_max_check: bool,
    pos_max_check: bool,
) -> Result<nat, ParseIntErr> {
    if neg_max_check && magnitude > width.negative_limit() {
        Err(ParseIntErr::NegOverflow)
    } else if pos_max_check && magnitude > width.positive_limit() {
        Err(ParseIntErr::Overflow)
    } else {
        Ok(magnitude)
    }
}

/// What parsing a span without a sign gives: an empty span is rejected;
/// else the leading zeros are dropped, the rest is decoded and the
/// magnitude is held against the limits asked for.
pub open spec fn magnitude_spec(
    s: Seq<u8>,
    width: Width,
    neg_max_check: bool,
    pos_max_check: bool,
) -> Result<nat, ParseIntErr> {
    if s.len() == 0 {
        Err(ParseIntErr::Empty)
    } else {
        match dispatch_spec(strip_zeros(s), width) {
            Ok(magnitude) => classify_spec(magnitude, width, neg_max_check, pos_max_check),
            Err(e) => Err(e),
        }
    }
}

/// What parsing a span as an unsigned integer of a width gives.
pub open spec fn unsigned_spec(s: Seq<u8>, width: Width) -> Result<int, ParseIntErr> {
    match magnitude_spec(s, width, false, false) {
        Ok(magnitude) => Ok(magnitude as int),
        Err(e) => Err(e),
    }
}

/// What parsing a span as a signed integer of a width gives: behind a
/// leading minus the magnitude is held against the negative limit and
/// negated, without one it is held against the positive limit.
pub open spec fn signed_spec(s: Seq<u8>, width: Width) -> Result<int, ParseIntErr> {
    if s.len() > 0 && s[0] == 0x2d {
        match magnitude_spec(s.skip(1), width, true, false) {
            Ok(magnitude) => Ok(-(magnitude as int)),
            Err(e) => Err(e),
        }
    } else {
        match magnitude_spec(s, width, false, true) {
            Ok(magnitude) => Ok(magnitude as int),
            Err(e) => Err(e),
        }
    }
}

/// A parsed magnitude as a mathematical number.
pub open spec fn magnitude_outcome(r: Result<u128, ParseIntErr>) -> Result<nat, ParseIntErr> {
    match r {
        Ok(magnitude) => Ok(magnitude as nat),
        Err(e) => Err(e),
    }
}

/// A parsed unsigned value as a mathematical number.
pub open spec fn unsigned_outcome(r: Result<u128, ParseIntErr>) -> Result<int, ParseIntErr> {
    match r {
        Ok(value) => Ok(value as int),
        Err(e) => Err(e),
    }
}

/// A parsed signed value as a mathematical number.
pub open spec fn signed_outcome(r: Result<i128, ParseIntErr>) -> Result<int, ParseIntErr> {
    match r {
        Ok(value) => Ok(value as int),
        Err(e) => Err(e),
    }
}

/// Counts the `0` digits at the start of `bytes`.
#[inline]
pub fn count_leading_zeros(bytes: &[u8]) -> (count: usize)
    ensures
        count == leading_zeros(bytes@),
{
    let n = bytes.len();
    let mut start: usize = 0;
    while start < n && bytes[start] == 0x30
        invariant
            n == bytes@.len(),
            start <= n,
            forall|i: int| 0 <= i < start ==> bytes@[i] == 0x30,
        decreases n - start,
    {
        start += 1;
    }
    proof {
        lemma_leading_zeros_is(bytes@, start as nat);
    }
    start
}

/// Validates and decodes the next group of `digits` at `pos`: sixteen,
/// eight, four, two bytes or one, the largest that fits in what is left.
/// Returns the group's value and its size.
#[inline]
pub fn decode_group(digits: &[u8], pos: usize) -> (r: Result<(u128, usize), ParseIntErr>)
    requires
        pos < digits@.len(),
    ensures
        r.is_ok() == all_digits(
            digits@.subrange(pos as int, pos + group_size((digits@.len() - pos) as nat)),
        ),
        r matches Ok((value, size)) ==> size == group_size((digits@.len() - pos) as nat) && value
            == decimal_value(digits@.subrange(pos as int, pos + size)),
        r matches Err(e) ==> e == ParseIntErr::NonDecimal,
{
    let rest = digits.len() - pos;
    if rest >= 16 {
        match checked_conversion_u128(slice_subrange(digits, pos, pos + 16)) {
            Ok(value) => Ok((value, 16)),
            Err(e) => Err(e),
        }
    } else if rest >= 8 {
        match checked_conversion_u64(slice_subrange(digits, pos, pos + 8)) {
            Ok(value) => Ok((value as u128, 8)),
            Err(e) => Err(e),
        }
    } else if rest >= 4 {
        match checked_conversion_u32(slice_subrange(digits, pos, pos + 4)) {
            Ok(value) => Ok((value as u128, 4)),
            Err(e) => Err(e),
        }
    } else if rest >= 2 {
        match checked_conversion_u16(slice_subrange(digits, pos, pos + 2)) {
            Ok(value) => Ok((value as u128, 2)),
            Err(e) => Err(e),
        }
    } else {
        let one = slice_subrange(digits, pos, pos + 1);
        proof {
            assert(one@.take(1) =~= one@);
            assert(all_digits(one@) == is_digit(one@[0])) by {
                if is_digit(one@[0]) {
                    assert forall|i: int| 0 <= i < one@.len() implies is_digit(
                        #[trigger] one@[i],
                    ) by {
                        assert(i == 0);
                    }
                }
            }
        }
        match checked_conversion_u8(one) {
            Ok(value) => Ok((value as u128, 1)),
            Err(e) => Err(e),
        }
    }
}

/// A span that holds only digits up to `pos` and in the group behind it holds
/// only digits up to the group's end, where its value is the fold of the two.
proof fn lemma_fold_group(s: Seq<u8>, pos: int, size: int)
    requires
        0 <= pos,
        0 < size,
        pos + size <= s.len(),
        all_digits(s.take(pos)),
        all_digits(s.subrange(pos, pos + size)),
    ensures
        all_digits(s.take(pos + size)),
        decimal_value(s.take(pos + size)) == decimal_value(s.take(pos)) * pow10(size as nat)
            + decimal_value(s.subrange(pos, pos + size)),
        decimal_value(s.take(pos + size)) < pow10((pos + size) as nat),
        decimal_value(s.subrange(pos, pos + size)) < pow10(size as nat),
{
    let head = s.take(pos);
    let group = s.subrange(pos, pos + size);
    let both = s.take(pos + size);
    assert(both =~= head + group);
    lemma_digits_extend(s, pos, size);
    lemma_decimal_value_concat(head, group);
    lemma_decimal_value_bound(both);
    lemma_decimal_value_bound(group);
}

/// Decodes a span of significant digits into its magnitude at a width. A
/// span longer than the width's digit count is rejected without reading a
/// byte. Else the span is cut into groups of sixteen, eight, four, two bytes
/// and one, largest first; each group is validated and decoded, and the
/// values are folded from the left as `sum * 10^size + value` with checked
/// arithmetic. An empty span gives zero.
pub fn dispatch_length(digits: &[u8], width: Width) -> (r: Result<u128, ParseIntErr>)
    ensures
        magnitude_outcome(r) == dispatch_spec(digits@, width),
{
    let n = digits.len();
    if n > width.max_digits() {
        return Err(ParseIntErr::Overflow);
    }
    proof {
        lemma_width_limits(width);
    }
    let mut pos: usize = 0;
    let mut sum: u128 = 0;
    while pos < n
        invariant
            n == digits@.len(),
            n <= width.digits() <= 39,
            pos <= n,
            all_digits(digits@.take(pos as int)),
            sum == decimal_value(digits@.take(pos as int)),
        decreases n - pos,
    {
        let (value, size) = match decode_group(digits, pos) {
            Ok(group) => group,
            Err(e) => {
                proof {
                    let size = group_size((n - pos) as nat);
                    lemma_digits_fail_in_part(digits@, pos as int, size as int);
                }
                return Err(e);
            },
        };
        proof {
            lemma_fold_group(digits@, pos as int, size as int);
            lemma_pow10_table();
            lemma_pow10_monotonic(size as nat, 38);
            if pos + size <= 38 {
                lemma_pow10_monotonic((pos + size) as nat, 38);
            } else {
                assert(digits@.take(pos + size) =~= digits@);
            }
        }
        let folded = match sum.checked_mul(exponent_u128(size)) {
            Some(shifted) => shifted.checked_add(value),
            None => None,
        };
        match folded {
            Some(next) => {
                sum = next;
            },
            None => {
                proof {
                    lemma_width_limits(width);
                }
                return Err(ParseIntErr::Overflow);
            },
        }
        pos += size;
    }
    proof {
        assert(digits@.take(n as int) =~= digits@);
    }
    if sum > width.unsigned_max() {
        Err(ParseIntErr::Overflow)
    } else {
        Ok(sum)
    }
}

/// Holds a magnitude of at most `length` digits against the signed limits
/// of a width. Below the digit count of the limits no limit can be passed,
/// and nothing is compared.
#[inline]
pub fn classify_overflow(
    magnitude: u128,
    length: usize,
    width: Width,
    neg_max_check: bool,
    pos_max_check: bool,
) -> (r: Result<u128, ParseIntErr>)
    requires
        magnitude < pow10(length as nat),
    ensures
        magnitude_outcome(r) == classify_spec(
            magnitude as nat,
            width,
            neg_max_check,
            pos_max_check,
        ),
{
    proof {
        lemma_width_limits(width);
        if length < width.signed_digits() {
            lemma_pow10_monotonic(length as nat, (width.signed_digits() - 1) as nat);
        }
    }
    if length < width.max_signed_digits() {
        Ok(magnitude)
    } else if neg_max_check && magnitude > width.signed_min_abs() {
        Err(ParseIntErr::NegOverflow)
    } else if pos_max_check && magnitude > width.signed_max() {
        Err(ParseIntErr::Overflow)
    } else {
        Ok(magnitude)
    }
}

/// Parses a span without a sign into its magnitude at a width: rejects the
/// empty span, drops the leading zeros, decodes what is left and holds the
/// magnitude against the signed limits asked for.
pub fn parse_magnitude(bytes: &[u8], width: Width, neg_max_check: bool, pos_max_check: bool) -> (r:
    Result<u128, ParseIntErr>)
    ensures
        magnitude_outcome(r) == magnitude_spec(bytes@, width, neg_max_check, pos_max_check),
{
    let n = bytes.len();
    if n == 0 {
        return Err(ParseIntErr::Empty);
    }
    let start = count_leading_zeros(bytes);
    proof {
        lemma_leading_zeros_facts(bytes@);
    }
    let digits = slice_subrange(bytes, start, n);
    assert(digits@ =~= strip_zeros(bytes@));
    match dispatch_length(digits, width) {
        Ok(magnitude) => {
            proof {
                lemma_decimal_value_bound(digits@);
            }
            classify_overflow(magnitude, n - start, width, neg_max_check, pos_max_check)
        },
        Err(e) => Err(e),
    }
}

} // verus!
