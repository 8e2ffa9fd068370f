use vstd::prelude::*;
use crate::decimal::{lemma_pow10_monotonic, pow10};

verus! {

/// The powers of ten up to the thirty-eighth, the last below `2^128`.
pub proof fn lemma_pow10_table()
    ensures
        pow10(0) == 1,
        pow10(1) == 10,
        pow10(2) == 100,
        pow10(3) == 1_000,
        pow10(4) == 10_000,
        pow10(5) == 100_000,
        pow10(6) == 1_000_000,
        pow10(7) == 10_000_000,
        pow10(8) == 100_000_000,
        pow10(9) == 1_000_000_000,
        pow10(10) == 10_000_000_000,
        pow10(11) == 100_000_000_000,
        pow10(12) == 1_000_000_000_000,
        pow10(13) == 10_000_000_000_000,
        pow10(14) == 100_000_000_000_000,
        pow10(15) == 1_000_000_000_000_000,
        pow10(16) == 10_000_000_000_000_000,
        pow10(17) == 100_000_000_000_000_000,
        pow10(18) == 1_000_000_000_000_000_000,
        pow10(19) == 10_000_000_000_000_000_000,
        pow10(20) == 100_000_000_000_000_000_000,
        pow10(21) == 1_000_000_000_000_000_000_000,
        pow10(22) == 10_000_000_000_000_000_000_000,
        pow10(23) == 100_000_000_000_000_000_000_000,
        pow10(24) == 1_000_000_000_000_000_000_000_000,
        pow10(25) == 10_000_000_000_000_000_000_000_000,
        pow10(26) == 100_000_000_000_000_000_000_000_000,
        pow10(27) == 1_000_000_000_000_000_000_000_000_000,
        pow10(28) == 10_000_000_000_000_000_000_000_000_000,
        pow10(29) == 100_000_000_000_000_000_000_000_000_000,
        pow10(30) == 1_000_000_000_000_000_000_000_000_000_000,
        pow10(31) == 10_000_000_000_000_000_000_000_000_000_000,
        pow10(32) == 100_000_000_000_000_000_000_000_000_000_000,
        pow10(33) == 1_000_000_000_000_000_000_000_000_000_000_000,
        pow10(34) == 10_000_000_000_000_000_000_000_000_000_000_000,
        pow10(35) == 100_000_000_000_000_000_000_000_000_000_000_000,
        pow10(36) == 1_000_000_000_000_000_000_000_000_000_000_000_000,
        pow10(37) == 10_000_000_000_000_000_000_000_000_000_000_000_000,
        pow10(38) == 100_000_000_000_000_000_000_000_000_000_000_000_000,
{
    assert(pow10(0) == 1);
    assert(pow10(1) == 10);
    assert(pow10(2) == 100);
    assert(pow10(3) == 1_000);
    assert(pow10(4) == 10_000);
    assert(pow10(5) == 100_000);
    assert(pow10(6) == 1_000_000);
    assert(pow10(7) == 10_000_000);
    assert(pow10(8) == 100_000_000);
    assert(pow10(9) == 1_000_000_000);
    assert(pow10(10) == 10_000_000_000);
    assert(pow10(11) == 100_000_000_000);
    assert(pow10(12) == 1_000_000_000_000);
    assert(pow10(13) == 10_000_000_000_000);
    assert(pow10(14) == 100_000_000_000_000);
    assert(pow10(15) == 1_000_000_000_000_000);
    assert(pow10(16) == 10_000_000_000_000_000);
    assert(pow10(17) == 100_000_000_000_000_000);
    assert(pow10(18) == 1_000_000_000_000_000_000);
    assert(pow10(19) == 10_000_000_000_000_000_000);
    assert(pow10(20) == 100_000_000_000_000_000_000);
    assert(pow10(21) == 1_000_000_000_000_000_000_000);
    assert(pow10(22) == 10_000_000_000_000_000_000_000);
    assert(pow10(23) == 100_000_000_000_000_000_000_000);
    assert(pow10(24) == 1_000_000_000_000_000_000_000_000);
    assert(pow10(25) == 10_000_000_000_000_000_000_000_000);
    assert(pow10(26) == 100_000_000_000_000_000_000_000_000);
    assert(pow10(27) == 1_000_000_000_000_000_000_000_000_000);
    assert(pow10(28) == 10_000_000_000_000_000_000_000_000_000);
    assert(pow10(29) == 100_000_000_000_000_000_000_000_000_000);
    assert(pow10(30) == 1_000_000_000_000_000_000_000_000_000_000);
    assert(pow10(31) == 10_000_000_000_000_000_000_000_000_000_000);
    assert(pow10(32) == 100_000_000_000_000_000_000_000_000_000_000);
    assert(pow10(33) == 1_000_000_000_000_000_000_000_000_000_000_000);
    assert(pow10(34) == 10_000_000_000_000_000_000_000_000_000_000_000);
    assert(pow10(35) == 100_000_000_000_000_000_000_000_000_000_000_000);
    assert(pow10(36) == 1_000_000_000_000_000_000_000_000_000_000_000_000);
    assert(pow10(37) == 10_000_000_000_000_000_000_000_000_000_000_000_000);
    assert(pow10(38) == 100_000_000_000_000_000_000_000_000_000_000_000_000);
}

/// Ten to the power `length`, read from a table up to the eighteenth power
/// and multiplied up from there.
#[inline]
pub fn exponent_u128(length: usize) -> (power: u128)
    requires
        length <= 38,
    ensures
        power == pow10(length as nat),
{
    proof {
        lemma_pow10_table();
    }
    if length <= 8 {
        if length == 0 {
            1_u128
        } else if length == 1 {
            10_u128
        } else if length == 2 {
            100_u128
        } else if length == 3 {
            1_000_u128
        } else if length == 4 {
            10_000_u128
        } else if length == 5 {
            100_000_u128
        } else if length == 6 {
            1_000_000_u128
        } else if length == 7 {
            10_000_000_u128
        } else {
            100_000_000_u128
        }
    } else {
        if length == 9 {
            1_000_000_000_u128
        } else if length == 10 {
            10_000_000_000_u128
        } else if length == 11 {
            100_000_000_000_u128
        } else if length == 12 {
            1_000_000_000_000_u128
        } else if length == 13 {
            10_000_000_000_000_u128
        } else if length == 14 {
            100_000_000_000_000_u128
        } else if length == 15 {
            1_000_000_000_000_000_u128
        } else if length == 16 {
            10_000_000_000_000_000_u128
        } else if length == 17 {
            100_000_000_000_000_000_u128
        } else if length == 18 {
            1_000_000_000_000_000_000_u128
        } else {
            let mut power: u128 = 1_000_000_000_000_000_000_u128;
            let mut done: usize = 18;
            while done < length
                invariant
                    18 <= done <= length <= 38,
                    power == pow10(done as nat),
                decreases length - done,
            {
                proof {
                    lemma_pow10_table();
                    lemma_pow10_monotonic((done + 1) as nat, 38);
                }
                power = power * 10;
                done += 1;
            }
            power
        }
    }
}

} // verus!
