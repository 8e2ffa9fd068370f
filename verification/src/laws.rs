use vstd::prelude::*;
use crate::decimal::{
    all_digits, decimal_value, is_digit, leading_zeros, lemma_decimal_value_lower_bound,
    lemma_decimal_value_push, lemma_digit_of, lemma_leading_zeros_facts, lemma_leading_zeros_is,
    lemma_pow10_monotonic, strip_zeros,
};
use crate::dispatch::{
    classify_spec, dispatch_spec, magnitude_spec, signed_outcome, signed_spec, unsigned_outcome,
    unsigned_spec,
};
use crate::error::ParseIntErr;
use crate::integer::has_minus;
use crate::parse_spec;
use crate::width::{lemma_width_limits, Width};

verus! {

/// The decimal digits that write `n`, most significant first, without a
/// leading zero; zero is written with the one digit `0`.
pub open spec fn decimal_digits(n: nat) -> Seq<u8>
    decreases n,
{
    if n < 10 {
        seq![(0x30 + n) as u8]
    } else {
        decimal_digits(n / 10).push((0x30 + n % 10) as u8)
    }
}

/// The decimal text of an integer: a minus before the digits of a negative
/// number.
pub open spec fn signed_digits(x: int) -> Seq<u8> {
    if x < 0 {
        seq![0x2du8] + decimal_digits((-x) as nat)
    } else {
        decimal_digits(x as nat)
    }
}

/// A span of `k` digits `0`.
pub open spec fn zeros(k: nat) -> Seq<u8> {
    Seq::new(k, |i: int| 0x30u8)
}

/// The decimal digits of a number are digits, at least one, write the
/// number, and start with `0` only for zero.
pub proof fn lemma_decimal_digits(n: nat)
    ensures
        decimal_digits(n).len() >= 1,
        all_digits(decimal_digits(n)),
        decimal_value(decimal_digits(n)) == n,
        n > 0 ==> decimal_digits(n)[0] != 0x30,
        n == 0 ==> decimal_digits(n) == seq![0x30u8],
    decreases n,
{
    let digits = decimal_digits(n);
    if n < 10 {
        let b = (0x30 + n) as u8;
        lemma_digit_of(b);
        assert(digits.drop_last().len() == 0);
        assert(decimal_value(digits.drop_last()) == 0);
        assert(digits.last() == b);
    } else {
        let front = decimal_digits(n / 10);
        let b = (0x30 + n % 10) as u8;
        lemma_decimal_digits(n / 10);
        lemma_digit_of(b);
        lemma_decimal_value_push(front, b);
        assert forall|i: int| 0 <= i < digits.len() implies is_digit(#[trigger] digits[i]) by {
            if i < front.len() {
                assert(digits[i] == front[i]);
            }
        }
        assert(digits[0] == front[0]);
    }
}

/// Parsing the digits of a number without a sign: the number is rejected as
/// an overflow where it is above the unsigned limit of the width, and is
/// else held against the signed limits asked for.
pub proof fn lemma_magnitude_of_digits(
    n: nat,
    width: Width,
    neg_max_check: bool,
    pos_max_check: bool,
)
    ensures
        magnitude_spec(decimal_digits(n), width, neg_max_check, pos_max_check) == (if n
            > width.unsigned_limit() {
            Err::<nat, ParseIntErr>(ParseIntErr::Overflow)
        } else {
            classify_spec(n, width, neg_max_check, pos_max_check)
        }),
{
    let digits = decimal_digits(n);
    lemma_decimal_digits(n);
    lemma_width_limits(width);
    if n == 0 {
        lemma_leading_zeros_is(digits, 1);
        assert(strip_zeros(digits).len() == 0);
        assert(all_digits(strip_zeros(digits)));
        assert(decimal_value(strip_zeros(digits)) == 0);
    } else {
        lemma_leading_zeros_is(digits, 0);
        assert(strip_zeros(digits) =~= digits);
        if digits.len() > width.digits() {
            lemma_decimal_value_lower_bound(digits);
            lemma_pow10_monotonic(width.digits(), (digits.len() - 1) as nat);
        }
    }
}

/// Round trip, unsigned: the decimal text of every number up to the largest
/// unsigned value of a width parses to that number.
pub proof fn law_round_trip_unsigned(n: nat, width: Width)
    requires
        n <= width.unsigned_limit(),
    ensures
        unsigned_spec(decimal_digits(n), width) == Ok::<int, ParseIntErr>(n as int),
        parse_spec(decimal_digits(n), width, false) == Ok::<int, ParseIntErr>(n as int),
{
    lemma_magnitude_of_digits(n, width, false, false);
}

/// Round trip, signed: the decimal text of every integer between the
/// smallest and the largest signed value of a width parses to that integer.
pub proof fn law_round_trip_signed(x: int, width: Width)
    requires
        -(width.negative_limit() as int) <= x <= width.positive_limit(),
    ensures
        signed_spec(signed_digits(x), width) == Ok::<int, ParseIntErr>(x),
        parse_spec(signed_digits(x), width, true) == Ok::<int, ParseIntErr>(x),
{
    lemma_width_limits(width);
    if x < 0 {
        let n = (-x) as nat;
        let text = signed_digits(x);
        assert(text.skip(1) =~= decimal_digits(n));
        lemma_magnitude_of_digits(n, width, true, false);
    } else {
        lemma_decimal_digits(x as nat);
        lemma_magnitude_of_digits(x as nat, width, false, true);
    }
}

/// Out of range: the decimal text of a number above the largest unsigned
/// value is an overflow; so is that of a number above the largest signed
/// value for a signed parse; behind a minus, a magnitude above that of the
/// smallest signed value is a negative overflow while it fits the unsigned
/// register, and an overflow above that.
pub proof fn law_out_of_range(n: nat, width: Width)
    ensures
        n > width.unsigned_limit() ==> unsigned_spec(decimal_digits(n), width) == Err::<
            int,
            ParseIntErr,
        >(ParseIntErr::Overflow),
        n > width.positive_limit() ==> signed_spec(decimal_digits(n), width) == Err::<
            int,
            ParseIntErr,
        >(ParseIntErr::Overflow),
        width.negative_limit() < n <= width.unsigned_limit() ==> signed_spec(
            signed_digits(-(n as int)),
            width,
        ) == Err::<int, ParseIntErr>(ParseIntErr::NegOverflow),
        n > width.unsigned_limit() ==> signed_spec(signed_digits(-(n as int)), width) == Err::<
            int,
            ParseIntErr,
        >(ParseIntErr::Overflow),
{
    lemma_width_limits(width);
    lemma_decimal_digits(n);
    lemma_magnitude_of_digits(n, width, false, false);
    lemma_magnitude_of_digits(n, width, false, true);
    lemma_magnitude_of_digits(n, width, true, false);
    if n > 0 {
        assert(signed_digits(-(n as int)).skip(1) =~= decimal_digits(n));
    }
}

/// Boundary exactness: at every width the text of the largest value parses
/// to it and the text of the next number is an overflow, unsigned and
/// signed; the text of the smallest signed value parses to it and the text
/// of the number below is a negative overflow.
pub proof fn law_boundaries(width: Width)
    ensures
        unsigned_spec(decimal_digits(width.unsigned_limit()), width) == Ok::<int, ParseIntErr>(
            width.unsigned_limit() as int,
        ),
        unsigned_spec(decimal_digits(width.unsigned_limit() + 1), width) == Err::<int, ParseIntErr>(
            ParseIntErr::Overflow,
        ),
        signed_spec(decimal_digits(width.positive_limit()), width) == Ok::<int, ParseIntErr>(
            width.positive_limit() as int,
        ),
        signed_spec(decimal_digits(width.positive_limit() + 1), width) == Err::<int, ParseIntErr>(
            ParseIntErr::Overflow,
        ),
        signed_spec(signed_digits(-(width.negative_limit() as int)), width) == Ok::<
            int,
            ParseIntErr,
        >(-(width.negative_limit() as int)),
        signed_spec(signed_digits(-(width.negative_limit() as int) - 1), width) == Err::<
            int,
            ParseIntErr,
        >(ParseIntErr::NegOverflow),
{
    lemma_width_limits(width);
    law_round_trip_unsigned(width.unsigned_limit(), width);
    law_round_trip_signed(width.positive_limit() as int, width);
    law_round_trip_signed(-(width.negative_limit() as int), width);
    law_out_of_range(width.unsigned_limit() + 1, width);
    law_out_of_range(width.positive_limit() + 1, width);
    law_out_of_range(width.negative_limit() + 1, width);
}

/// Zeros before a span add to its count of leading zeros, and leave what
/// stands behind the leading zeros as it was.
pub proof fn lemma_strip_leading_zeros(s: Seq<u8>, k: nat)
    ensures
        leading_zeros(zeros(k) + s) == k + leading_zeros(s),
        strip_zeros(zeros(k) + s) == strip_zeros(s),
{
    let padded = zeros(k) + s;
    let lead = leading_zeros(s);
    lemma_leading_zeros_facts(s);
    assert forall|i: int| 0 <= i < k + lead implies padded[i] == 0x30 by {
        if i >= k {
            assert(padded[i] == s[i - k]);
        }
    }
    if k + lead < padded.len() {
        assert(padded[(k + lead) as int] == s[lead as int]);
    }
    lemma_leading_zeros_is(padded, k + lead);
    assert(strip_zeros(padded) =~= strip_zeros(s));
}

/// Leading-zero invariance: zeros before a span that is not empty do not
/// change what parsing it without a sign gives, whatever the span holds.
pub proof fn law_leading_zeros(
    s: Seq<u8>,
    k: nat,
    width: Width,
    neg_max_check: bool,
    pos_max_check: bool,
)
    requires
        s.len() > 0,
    ensures
        magnitude_spec(zeros(k) + s, width, neg_max_check, pos_max_check) == magnitude_spec(
            s,
            width,
            neg_max_check,
            pos_max_check,
        ),
{
    lemma_strip_leading_zeros(s, k);
}

/// Leading-zero invariance of a parse: zeros before the digits of a span
/// that is not empty, behind the minus if it has one, do not change what
/// parsing it gives.
pub proof fn law_leading_zeros_parse(s: Seq<u8>, k: nat, width: Width, signed: bool)
    requires
        s.len() > 0,
    ensures
        !(signed && has_minus(s)) ==> parse_spec(zeros(k) + s, width, signed) == parse_spec(
            s,
            width,
            signed,
        ),
        parse_spec(seq![0x2du8] + (zeros(k) + s), width, true) == parse_spec(
            seq![0x2du8] + s,
            width,
            true,
        ),
{
    law_leading_zeros(s, k, width, false, false);
    law_leading_zeros(s, k, width, false, true);
    law_leading_zeros(s, k, width, true, false);
    if k > 0 {
        assert((zeros(k) + s)[0] == 0x30);
    } else {
        assert(zeros(k) + s =~= s);
    }
    assert((seq![0x2du8] + (zeros(k) + s)).skip(1) =~= zeros(k) + s);
    assert((seq![0x2du8] + s).skip(1) =~= s);
}

/// A span of zeros of any length from one on parses to zero, signed or not,
/// and behind a minus too.
pub proof fn law_all_zeros(k: nat, width: Width, signed: bool)
    requires
        k >= 1,
    ensures
        parse_spec(zeros(k), width, signed) == Ok::<int, ParseIntErr>(0),
        parse_spec(seq![0x2du8] + zeros(k), width, true) == Ok::<int, ParseIntErr>(0),
{
    let s = zeros(k);
    lemma_leading_zeros_is(s, k);
    assert(strip_zeros(s).len() == 0);
    assert(all_digits(strip_zeros(s)));
    assert(decimal_value(strip_zeros(s)) == 0);
    assert(dispatch_spec(strip_zeros(s), width) == Ok::<nat, ParseIntErr>(0));
    assert(s[0] == 0x30);
    assert((seq![0x2du8] + s).skip(1) =~= s);
}

/// Determinism: a span has one outcome. Two results that each are what
/// parsing the same span at the same width gives are the same result.
pub proof fn law_deterministic_unsigned(
    first: Result<u128, ParseIntErr>,
    second: Result<u128, ParseIntErr>,
    s: Seq<u8>,
    width: Width,
)
    requires
        unsigned_outcome(first) == unsigned_spec(s, width),
        unsigned_outcome(second) == unsigned_spec(s, width),
    ensures
        first == second,
{
}

/// Determinism of the signed parse: two results that each are what parsing
/// the same span at the same width gives are the same result.
pub proof fn law_deterministic_signed(
    first: Result<i128, ParseIntErr>,
    second: Result<i128, ParseIntErr>,
    s: Seq<u8>,
    width: Width,
)
    requires
        signed_outcome(first) == signed_spec(s, width),
        signed_outcome(second) == signed_spec(s, width),
    ensures
        first == second,
{
}

} // verus!
