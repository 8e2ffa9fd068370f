use vstd::prelude::*;

verus! {

/// Whether `b` is the ASCII code of a decimal digit.
pub open spec fn is_digit(b: u8) -> bool {
    0x30 <= b <= 0x39
}

/// Whether every byte of `s` is a decimal digit.
pub open spec fn all_digits(s: Seq<u8>) -> bool {
    forall|i: int| 0 <= i < s.len() ==> is_digit(#[trigger] s[i])
}

/// The low four bits of `b`. For a digit byte this is the digit it writes.
pub open spec fn digit_of(b: u8) -> nat {
    (b & 0x0f) as nat
}

/// Ten to the power `n`.
pub open spec fn pow10(n: nat) -> nat
    decreases n,
{
    if n == 0 {
        1
    } else {
        10 * pow10((n - 1) as nat)
    }
}

/// The number that the bytes of `s` write in base ten, most significant
/// digit first. Each byte counts with its low four bits, so that the value
/// is defined for every span; on a span of digits it is the usual reading.
pub open spec fn decimal_value(s: Seq<u8>) -> nat
    decreases s.len(),
{
    if s.len() == 0 {
        0
    } else {
        10 * decimal_value(s.drop_last()) + digit_of(s.last())
    }
}

/// How many bytes at the start of `s` are the digit `0`.
pub open spec fn leading_zeros(s: Seq<u8>) -> nat
    decreases s.len(),
{
    if s.len() > 0 && s[0] == 0x30 {
        1 + leading_zeros(s.skip(1))
    } else {
        0
    }
}

/// `s` without its leading `0` digits.
pub open spec fn strip_zeros(s: Seq<u8>) -> Seq<u8> {
    s.skip(leading_zeros(s) as int)
}

/// A digit byte writes the digit `b - '0'`.
pub proof fn lemma_digit_of(b: u8)
    requires
        is_digit(b),
    ensures
        digit_of(b) == b - 0x30,
        digit_of(b) <= 9,
{
    assert(0x30 <= b && b <= 0x39 ==> (b & 0x0f) == b - 0x30) by (bit_vector);
}

/// Powers of ten multiply as their exponents add.
pub proof fn lemma_pow10_adds(a: nat, b: nat)
    ensures
        pow10(a + b) == pow10(a) * pow10(b),
    decreases b,
{
    if b == 0 {
        assert(pow10(a) * 1 == pow10(a));
    } else {
        lemma_pow10_adds(a, (b - 1) as nat);
        assert(pow10(a + b) == 10 * pow10((a + b - 1) as nat));
        assert(pow10(a) * (10 * pow10((b - 1) as nat)) == 10 * (pow10(a) * pow10((b - 1) as nat)))
            by (nonlinear_arith);
    }
}

/// Powers of ten are positive and grow with the exponent.
pub proof fn lemma_pow10_monotonic(a: nat, b: nat)
    requires
        a <= b,
    ensures
        1 <= pow10(a) <= pow10(b),
    decreases b,
{
    if a == 0 && b == 0 {
    } else if a < b {
        lemma_pow10_monotonic(a, (b - 1) as nat);
    } else {
        lemma_pow10_monotonic((a - 1) as nat, (b - 1) as nat);
    }
}

/// The value of a span and of one more byte behind it.
pub proof fn lemma_decimal_value_push(s: Seq<u8>, b: u8)
    ensures
        decimal_value(s.push(b)) == 10 * decimal_value(s) + digit_of(b),
{
    assert(s.push(b).drop_last() =~= s);
}

/// The value of two spans written one after the other.
pub proof fn lemma_decimal_value_concat(a: Seq<u8>, b: Seq<u8>)
    ensures
        decimal_value(a + b) == decimal_value(a) * pow10(b.len()) + decimal_value(b),
    decreases b.len(),
{
    if b.len() == 0 {
        assert(a + b =~= a);
        assert(decimal_value(a) * 1 == decimal_value(a));
    } else {
        let front = b.drop_last();
        lemma_decimal_value_concat(a, front);
        assert((a + b).drop_last() =~= a + front);
        assert((a + b).last() == b.last());
        let va = decimal_value(a);
        let p = pow10(front.len());
        assert(pow10(b.len()) == 10 * p);
        assert(10 * (va * p + decimal_value(front)) == va * (10 * p) + 10 * decimal_value(front))
            by (nonlinear_arith);
    }
}

/// A span of `n` digits writes a number below ten to the `n`.
pub proof fn lemma_decimal_value_bound(s: Seq<u8>)
    requires
        all_digits(s),
    ensures
        decimal_value(s) < pow10(s.len()),
    decreases s.len(),
{
    if s.len() > 0 {
        let front = s.drop_last();
        assert(all_digits(front)) by {
            assert forall|i: int| 0 <= i < front.len() implies is_digit(#[trigger] front[i]) by {
                assert(front[i] == s[i]);
            }
        }
        lemma_decimal_value_bound(front);
        lemma_digit_of(s.last());
    }
}

/// A span of `n` digits whose first is not `0` writes a number of at least
/// ten to the `n - 1`.
pub proof fn lemma_decimal_value_lower_bound(s: Seq<u8>)
    requires
        all_digits(s),
        s.len() > 0,
        s[0] != 0x30,
    ensures
        pow10((s.len() - 1) as nat) <= decimal_value(s),
    decreases s.len(),
{
    let front = s.drop_last();
    if front.len() == 0 {
        lemma_digit_of(s[0]);
        assert(decimal_value(front) == 0);
    } else {
        assert(all_digits(front)) by {
            assert forall|i: int| 0 <= i < front.len() implies is_digit(#[trigger] front[i]) by {
                assert(front[i] == s[i]);
            }
        }
        assert(front[0] == s[0]);
        lemma_decimal_value_lower_bound(front);
    }
}

/// A span of `0` digits writes zero.
pub proof fn lemma_decimal_value_zeros(s: Seq<u8>)
    requires
        forall|i: int| 0 <= i < s.len() ==> s[i] == 0x30,
    ensures
        decimal_value(s) == 0,
    decreases s.len(),
{
    if s.len() > 0 {
        lemma_decimal_value_zeros(s.drop_last());
        assert((0x30u8 & 0x0f) == 0) by (bit_vector);
    }
}

/// The count of leading zeros is the first place that holds another byte.
pub proof fn lemma_leading_zeros_is(s: Seq<u8>, k: nat)
    requires
        k <= s.len(),
        forall|i: int| 0 <= i < k ==> s[i] == 0x30,
        k < s.len() ==> s[k as int] != 0x30,
    ensures
        leading_zeros(s) == k,
    decreases s.len(),
{
    if k > 0 {
        let rest = s.skip(1);
        assert forall|i: int| 0 <= i < k - 1 implies rest[i] == 0x30 by {
            assert(rest[i] == s[i + 1]);
        }
        if k < s.len() {
            assert(rest[k - 1] == s[k as int]);
        }
        lemma_leading_zeros_is(rest, (k - 1) as nat);
    }
}

/// What the count of leading zeros says of the span.
pub proof fn lemma_leading_zeros_facts(s: Seq<u8>)
    ensures
        leading_zeros(s) <= s.len(),
        forall|i: int| 0 <= i < leading_zeros(s) ==> s[i] == 0x30,
        leading_zeros(s) < s.len() ==> s[leading_zeros(s) as int] != 0x30,
    decreases s.len(),
{
    if s.len() > 0 && s[0] == 0x30 {
        let rest = s.skip(1);
        lemma_leading_zeros_facts(rest);
        assert forall|i: int| 0 <= i < leading_zeros(s) implies s[i] == 0x30 by {
            if i > 0 {
                assert(rest[i - 1] == s[i]);
            }
        }
        if leading_zeros(s) < s.len() {
            assert(rest[leading_zeros(rest) as int] == s[leading_zeros(s) as int]);
        }
    }
}

/// Leading zeros do not change the value of a span.
pub proof fn lemma_strip_zeros_value(s: Seq<u8>)
    ensures
        decimal_value(strip_zeros(s)) == decimal_value(s),
{
    lemma_leading_zeros_facts(s);
    let k = leading_zeros(s) as int;
    let head = s.take(k);
    let tail = s.skip(k);
    assert(head + tail =~= s);
    lemma_decimal_value_zeros(head);
    lemma_decimal_value_concat(head, tail);
    assert(0 * pow10(tail.len()) == 0);
}

/// Every part of a span of digits is a span of digits.
pub proof fn lemma_all_digits_subrange(s: Seq<u8>, from: int, to: int)
    requires
        all_digits(s),
        0 <= from <= to <= s.len(),
    ensures
        all_digits(s.subrange(from, to)),
{
    let part = s.subrange(from, to);
    assert forall|i: int| 0 <= i < part.len() implies is_digit(#[trigger] part[i]) by {
        assert(part[i] == s[from + i]);
    }
}

/// A span that holds only digits up to `pos`, and only digits in the `size`
/// bytes from there, holds only digits up to `pos + size`.
pub proof fn lemma_digits_extend(s: Seq<u8>, pos: int, size: int)
    requires
        0 <= pos,
        0 <= size,
        pos + size <= s.len(),
        all_digits(s.take(pos)),
        all_digits(s.subrange(pos, pos + size)),
    ensures
        all_digits(s.take(pos + size)),
{
    let head = s.take(pos);
    let group = s.subrange(pos, pos + size);
    let both = s.take(pos + size);
    assert forall|i: int| 0 <= i < both.len() implies is_digit(#[trigger] both[i]) by {
        if i < pos {
            assert(both[i] == head[i]);
        } else {
            assert(both[i] == group[i - pos]);
        }
    }
}

/// A span with a byte that is no digit in one of its parts holds a byte that
/// is no digit.
pub proof fn lemma_digits_fail_in_part(s: Seq<u8>, pos: int, size: int)
    requires
        0 <= pos,
        0 <= size,
        pos + size <= s.len(),
        !all_digits(s.subrange(pos, pos + size)),
    ensures
        !all_digits(s),
{
    let group = s.subrange(pos, pos + size);
    let i = choose|i: int| 0 <= i < group.len() && !is_digit(#[trigger] group[i]);
    assert(s[pos + i] == group[i]);
}

} // verus!
