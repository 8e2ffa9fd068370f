use vstd::prelude::*;
use crate::decimal::{lemma_pow10_monotonic, pow10};
use crate::exponent::lemma_pow10_table;

verus! {

/// The number of decimal digits that write `n`; zero is written with one.
pub open spec fn decimal_length(n: nat) -> nat
    decreases n,
{
    if n < 10 {
        1
    } else {
        1 + decimal_length(n / 10)
    }
}

/// A number between two neighbouring powers of ten has as many digits as the
/// upper one has zeros.
pub proof fn lemma_decimal_length(n: nat, k: nat)
    requires
        k >= 1,
        n < pow10(k),
        k > 1 ==> pow10((k - 1) as nat) <= n,
    ensures
        decimal_length(n) == k,
    decreases k,
{
    if k == 1 {
        assert(pow10(1) == 10 * pow10(0));
    } else {
        assert(pow10(k) == 10 * pow10((k - 1) as nat));
        assert(pow10(1) == 10 * pow10(0));
        if k > 2 {
            assert(pow10((k - 1) as nat) == 10 * pow10((k - 2) as nat));
        }
        lemma_pow10_monotonic(1, (k - 1) as nat);
        lemma_decimal_length(n / 10, (k - 1) as nat);
    }
}

/// The number of decimal digits of `n`, counted up to nineteen: for a number
/// of twenty digits the count is nineteen.
#[inline]
pub fn u64_length(n: u64) -> (length: usize)
    ensures
        n < 10_000_000_000_000_000_000 ==> length == decimal_length(n as nat),
        n >= 10_000_000_000_000_000_000 ==> length == 19,
{
    proof {
        lemma_pow10_table();
        if n < 10_000_000_000_000_000_000 {
            let k: nat = if n < 10 {
                1
            } else if n < 100 {
                2
            } else if n < 1_000 {
                3
            } else if n < 10_000 {
                4
            } else if n < 100_000 {
                5
            } else if n < 1_000_000 {
                6
            } else if n < 10_000_000 {
                7
            } else if n < 100_000_000 {
                8
            } else if n < 1_000_000_000 {
                9
            } else if n < 10_000_000_000 {
                10
            } else if n < 100_000_000_000 {
                11
            } else if n < 1_000_000_000_000 {
                12
            } else if n < 10_000_000_000_000 {
                13
            } else if n < 100_000_000_000_000 {
                14
            } else if n < 1_000_000_000_000_000 {
                15
            } else if n < 10_000_000_000_000_000 {
                16
            } else if n < 100_000_000_000_000_000 {
                17
            } else if n < 1_000_000_000_000_000_000 {
                18
            } else {
                19
            };
            lemma_decimal_length(n as nat, k);
        }
    }
    if n < 10_000_000_000 {
        if n < 10 {
            1
        } else if n < 100 {
            2
        } else if n < 1_000 {
            3
        } else if n < 10_000 {
            4
        } else if n < 100_000 {
            5
        } else if n < 1_000_000 {
            6
        } else if n < 10_000_000 {
            7
        } else if n < 100_000_000 {
            8
        } else if n < 1_000_000_000 {
            9
        } else {
            10
        }
    } else {
        if n < 100_000_000_000 {
            11
        } else if n < 1_000_000_000_000 {
            12
        } else if n < 10_000_000_000_000 {
            13
        } else if n < 100_000_000_000_000 {
            14
        } else if n < 1_000_000_000_000_000 {
            15
        } else if n < 10_000_000_000_000_000 {
            16
        } else if n < 100_000_000_000_000_000 {
            17
        } else if n < 1_000_000_000_000_000_000 {
            18
        } else {
            19
        }
    }
}

/// The number of decimal digits of `n`, counted up to nine: for a number of
/// ten digits the count is nine.
#[inline]
pub fn u32_length(n: u32) -> (length: usize)
    ensures
        n < 1_000_000_000 ==> length == decimal_length(n as nat),
        n >= 1_000_000_000 ==> length == 9,
{
    proof {
        lemma_pow10_table();
        if n < 1_000_000_000 {
            let k: nat = if n < 10 {
                1
            } else if n < 100 {
                2
            } else if n < 1_000 {
                3
            } else if n < 10_000 {
                4
            } else if n < 100_000 {
                5
            } else if n < 1_000_000 {
                6
            } else if n < 10_000_000 {
                7
            } else if n < 100_000_000 {
                8
            } else {
                9
            };
            lemma_decimal_length(n as nat, k);
        }
    }
    if n < 10_000 {
        if n < 10 {
            1
        } else if n < 100 {
            2
        } else if n < 1_000 {
            3
        } else {
            4
        }
    } else {
        if n < 100_000 {
            5
        } else if n < 1_000_000 {
            6
        } else if n < 10_000_000 {
            7
        } else if n < 100_000_000 {
            8
        } else {
            9
        }
    }
}

/// The estimate of `n / 10` that shifts and additions give: `n` times a
/// binary fraction just below eight tenths, rounded down at each step, and
/// then an eighth of it.
pub open spec fn div10_estimate(n: nat) -> nat {
    let q1 = n / 2 + n / 4;
    let q2 = q1 + q1 / 16;
    let q3 = q2 + q2 / 256;
    let q4 = q3 + q3 / 65536;
    let q5 = q4 + q4 / 4294967296;
    q5 / 8
}

/// The estimate is the quotient by ten or one below it.
pub proof fn lemma_div10_estimate(n: nat)
    requires
        n <= u64::MAX,
    ensures
        div10_estimate(n) * 10 <= n,
        n - div10_estimate(n) * 10 <= 19,
        div10_estimate(n) == n / 10 || div10_estimate(n) + 1 == n / 10,
{
}

/// A right shift is a division by a power of two, and a left shift that
/// loses no bit is a multiplication by one.
proof fn lemma_shifts_u32(x: u32)
    by (bit_vector)
    ensures
        x >> 1 == x / 2,
        x >> 2 == x / 4,
        x >> 3 == x / 8,
        x >> 4 == x / 16,
        x >> 8 == x / 256,
        x >> 16 == x / 65536,
        x <= 0x3fff_ffff ==> x << 2 == x * 4,
        x <= 0x7fff_ffff ==> x << 1 == x * 2,
{
}

/// A right shift is a division by a power of two.
proof fn lemma_shifts_u64(x: u64)
    by (bit_vector)
    ensures
        x >> 1 == x / 2,
        x >> 2 == x / 4,
        x >> 3 == x / 8,
        x >> 4 == x / 16,
        x >> 8 == x / 256,
        x >> 16 == x / 65536,
        x >> 32 == x / 4294967296,
{
}

/// Divides by ten with shifts and additions alone, without the last
/// correction: the quotient is the estimate, which is `n / 10` or one below
/// it, and the remainder, which makes up for it, is below twenty.
#[inline]
pub fn div10u32(n: u32) -> (pair: (u32, u32))
    ensures
        pair.0 == div10_estimate(n as nat),
        pair.0 * 10 + pair.1 == n,
        pair.1 < 20,
        pair.0 == n / 10 || pair.0 + 1 == n / 10,
{
    proof {
        lemma_div10_estimate(n as nat);
        lemma_shifts_u32(n);
    }
    let q = (n >> 1) + (n >> 2);
    proof {
        lemma_shifts_u32(q);
    }
    let q = q + (q >> 4);
    proof {
        lemma_shifts_u32(q);
    }
    let q = q + (q >> 8);
    proof {
        lemma_shifts_u32(q);
    }
    let q = q + (q >> 16);
    proof {
        lemma_shifts_u32(q);
        assert((q as nat) / 4294967296 == 0);
    }
    let q = q >> 3;
    proof {
        lemma_shifts_u32(q);
        lemma_shifts_u32(((q << 2) + q) as u32);
    }
    let r = n - (((q << 2) + q) << 1);
    (q, r)
}

/// Divides by ten with shifts and additions: the quotient and the remainder
/// of `n` by ten.
#[inline]
pub fn div10u64(n: u64) -> (pair: (u64, u64))
    ensures
        pair.0 == n / 10,
        pair.1 == n % 10,
{
    proof {
        lemma_div10_estimate(n as nat);
        lemma_shifts_u64(n);
    }
    let q = (n >> 1) + (n >> 2);
    proof {
        lemma_shifts_u64(q);
    }
    let q = q + (q >> 4);
    proof {
        lemma_shifts_u64(q);
    }
    let q = q + (q >> 8);
    proof {
        lemma_shifts_u64(q);
    }
    let q = q + (q >> 16);
    proof {
        lemma_shifts_u64(q);
    }
    let q = q + (q >> 32);
    proof {
        lemma_shifts_u64(q);
    }
    let q = q >> 3;
    let r = n - q * 10;
    if r > 9 {
        (q + 1, r - 10)
    } else {
        (q, r)
    }
}

} // verus!
