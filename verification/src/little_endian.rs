use vstd::prelude::*;
use crate::decimal::{decimal_value, digit_of, lemma_decimal_value_push};

verus! {

/// Byte lane `i` of a register: lane 0 is the least significant byte.
pub open spec fn lane(chunk: u128, i: int) -> u8 {
    ((chunk >> ((8 * i) as u128)) & 0xff) as u8
}

/// The first `n` byte lanes of a register, lane 0 first.
pub open spec fn lanes(chunk: u128, n: nat) -> Seq<u8> {
    Seq::new(n, |i: int| lane(chunk, i))
}

/// `s` followed by zero bytes up to the length `n`.
pub open spec fn zero_padded(s: Seq<u8>, n: nat) -> Seq<u8> {
    s + Seq::new((n - s.len()) as nat, |i: int| 0u8)
}

/// The value of the first `k + 1` lanes, from that of the first `k`.
pub proof fn lemma_lanes_value_step(chunk: u128, k: nat)
    ensures
        decimal_value(lanes(chunk, k + 1)) == 10 * decimal_value(lanes(chunk, k)) + digit_of(
            lane(chunk, k as int),
        ),
{
    assert(lanes(chunk, k + 1) =~= lanes(chunk, k).push(lane(chunk, k as int)));
    lemma_decimal_value_push(lanes(chunk, k), lane(chunk, k as int));
}

/// Zero lanes before a span do not change the number it writes: a register
/// whose digits stand in its last lanes, behind zero lanes, decodes to the
/// value of the digits.
pub proof fn lemma_leading_zero_lanes(k: nat, s: Seq<u8>)
    ensures
        decimal_value(Seq::new(k, |i: int| 0u8) + s) == decimal_value(s),
    decreases s.len(), k,
{
    let head = Seq::new(k, |i: int| 0u8);
    if s.len() == 0 {
        assert(head + s =~= head);
        if k > 0 {
            let front = Seq::new((k - 1) as nat, |i: int| 0u8);
            assert(head.drop_last() =~= front);
            assert(front + Seq::<u8>::empty() =~= front);
            lemma_leading_zero_lanes((k - 1) as nat, Seq::<u8>::empty());
            assert(0u8 & 0x0f == 0) by (bit_vector);
        }
    } else {
        assert((head + s).drop_last() =~= head + s.drop_last());
        lemma_leading_zero_lanes(k, s.drop_last());
    }
}

/// Every lane of the zero register is zero.
proof fn lemma_zero_lane(j: u32)
    by (bit_vector)
    requires
        j < 16,
    ensures
        ((0u128 >> ((8 * j) as u128)) & 0xff) as u8 == 0,
{
}

/// What writing the byte `b` into the empty lane `i` does to every lane.
proof fn lemma_write_lane(chunk: u128, b: u8, i: u32, j: u32)
    by (bit_vector)
    requires
        i < 16,
        j < 16,
        ((chunk >> ((8 * i) as u128)) & 0xff) as u8 == 0,
    ensures
        (((chunk | ((b as u128) << ((8 * i) as u128))) >> ((8 * j) as u128)) & 0xff) as u8 == (if j
            == i {
            b
        } else {
            ((chunk >> ((8 * j) as u128)) & 0xff) as u8
        }),
{
}

/// A register whose upper lanes are zero fits in the lower ones.
proof fn lemma_upper_lanes_zero(chunk: u128)
    by (bit_vector)
    ensures
        ({
            &&& lane(chunk, 8) == 0 && lane(chunk, 9) == 0
            &&& lane(chunk, 10) == 0 && lane(chunk, 11) == 0
            &&& lane(chunk, 12) == 0 && lane(chunk, 13) == 0
            &&& lane(chunk, 14) == 0 && lane(chunk, 15) == 0
        }) ==> chunk <= 0xffff_ffff_ffff_ffff,
        ({
            &&& chunk <= 0xffff_ffff_ffff_ffff
            &&& lane(chunk, 4) == 0 && lane(chunk, 5) == 0
            &&& lane(chunk, 6) == 0 && lane(chunk, 7) == 0
        }) ==> chunk <= 0xffff_ffff,
        ({
            &&& chunk <= 0xffff_ffff
            &&& lane(chunk, 2) == 0 && lane(chunk, 3) == 0
        }) ==> chunk <= 0xffff,
{
}

/// Loads up to sixteen bytes into a register: lane `i` holds `input[i]`, and
/// the lanes behind the span are zero.
#[inline(always)]
#[must_use]
pub fn le_bytes_to_u128(input: &[u8]) -> (chunk: u128)
    requires
        input@.len() <= 16,
    ensures
        lanes(chunk, 16) == zero_padded(input@, 16),
{
    let n = input.len();
    let mut chunk: u128 = 0;
    let mut i: usize = 0;
    proof {
        assert forall|j: int| 0 <= j < 16 implies lane(chunk, j) == 0u8 by {
            lemma_zero_lane(j as u32);
        }
    }
    while i < n
        invariant
            n == input@.len(),
            n <= 16,
            i <= n,
            forall|j: int| 0 <= j < 16 ==> lane(chunk, j) == (if j < i { input@[j] } else { 0u8 }),
        decreases n - i,
    {
        let b = input[i];
        let ghost before = chunk;
        chunk = chunk | ((b as u128) << ((8 * i) as u128));
        proof {
            assert forall|j: int| 0 <= j < 16 implies lane(chunk, j) == (if j < i + 1 {
                input@[j]
            } else {
                0u8
            }) by {
                assert(lane(before, i as int) == 0);
                assert(lane(before, j) == (if j < i { input@[j] } else { 0u8 }));
                lemma_write_lane(before, b, i as u32, j as u32);
            }
        }
        i += 1;
    }
    proof {
        assert(lanes(chunk, 16) =~= zero_padded(input@, 16));
    }
    chunk
}

/// Loads up to eight bytes into a register: lane `i` holds `input[i]`, and
/// the lanes behind the span are zero.
#[inline(always)]
#[must_use]
pub fn le_bytes_to_u64(input: &[u8]) -> (chunk: u64)
    requires
        input@.len() <= 8,
    ensures
        lanes(chunk as u128, 8) == zero_padded(input@, 8),
{
    let wide = le_bytes_to_u128(input);
    proof {
        lemma_narrow_lanes(wide, input@, 8);
    }
    wide as u64
}

/// Loads up to four bytes into a register: lane `i` holds `input[i]`, and
/// the lanes behind the span are zero.
#[inline(always)]
#[must_use]
pub fn le_bytes_to_u32(input: &[u8]) -> (chunk: u32)
    requires
        input@.len() <= 4,
    ensures
        lanes(chunk as u128, 4) == zero_padded(input@, 4),
{
    let wide = le_bytes_to_u128(input);
    proof {
        lemma_narrow_lanes(wide, input@, 4);
    }
    wide as u32
}

/// Loads up to two bytes into a register: lane `i` holds `input[i]`, and
/// the lanes behind the span are zero.
#[inline(always)]
#[must_use]
pub fn le_bytes_to_u16(input: &[u8]) -> (chunk: u16)
    requires
        input@.len() <= 2,
    ensures
        lanes(chunk as u128, 2) == zero_padded(input@, 2),
{
    let wide = le_bytes_to_u128(input);
    proof {
        lemma_narrow_lanes(wide, input@, 2);
    }
    wide as u16
}

/// A register loaded from at most `n` bytes fits in `n` lanes, and its
/// first `n` lanes are the span and its padding.
proof fn lemma_narrow_lanes(wide: u128, s: Seq<u8>, n: nat)
    requires
        n == 2 || n == 4 || n == 8,
        s.len() <= n,
        lanes(wide, 16) == zero_padded(s, 16),
    ensures
        n == 2 ==> wide <= 0xffff,
        n == 4 ==> wide <= 0xffff_ffff,
        n == 8 ==> wide <= 0xffff_ffff_ffff_ffff,
        lanes(wide, n) == zero_padded(s, n),
{
    assert forall|j: int| 0 <= j < 16 implies lane(wide, j) == zero_padded(s, 16)[j] by {
        assert(lanes(wide, 16)[j] == lane(wide, j));
    }
    assert(lane(wide, 8) == 0 && lane(wide, 9) == 0 && lane(wide, 10) == 0);
    assert(lane(wide, 11) == 0 && lane(wide, 12) == 0 && lane(wide, 13) == 0);
    assert(lane(wide, 14) == 0 && lane(wide, 15) == 0);
    if n <= 4 {
        assert(lane(wide, 4) == 0 && lane(wide, 5) == 0);
        assert(lane(wide, 6) == 0 && lane(wide, 7) == 0);
    }
    if n == 2 {
        assert(lane(wide, 2) == 0 && lane(wide, 3) == 0);
    }
    lemma_upper_lanes_zero(wide);
    assert(lanes(wide, n) =~= zero_padded(s, n));
}

/// One folding round on a register: the fields under `high`, moved down by
/// `shift` bits, plus the fields under `low` times `weight`.
pub open spec fn fold_round(word: u128, high: u128, shift: u128, low: u128, weight: u128) -> int {
    ((word & high) >> shift) + (word & low) * weight
}

/// The field of a register that starts at bit `place`, read through `mask`.
pub open spec fn field(word: u128, place: u128, mask: u128) -> u128 {
    (word >> place) & mask
}

/// The value of the first `n` lanes unfolds lane by lane, each lane a
/// decimal place below the one before.
proof fn lemma_lanes_value(chunk: u128, n: nat)
    requires
        n <= 16,
    ensures
        decimal_value(lanes(chunk, 0)) == 0,
        forall|k: nat|
            #![trigger lane(chunk, k as int)]
            k < n ==> decimal_value(lanes(chunk, k + 1)) == 10 * decimal_value(lanes(chunk, k))
                + digit_of(lane(chunk, k as int)),
{
    assert(lanes(chunk, 0).len() == 0);
    assert forall|k: nat| k < n implies decimal_value(lanes(chunk, k + 1)) == 10 * decimal_value(
        lanes(chunk, k),
    ) + digit_of(#[trigger] lane(chunk, k as int)) by {
        lemma_lanes_value_step(chunk, k);
    }
}

/// Round 1 on two lanes does not overflow, and folds the lanes in
/// pairs: the first of a pair counts ten times.
proof fn lemma_round1_u16(word: u16)
    by (bit_vector)
    ensures
        ({
            let folded = fold_round(
                word as u128,
                0x0f00,
                8,
                0x000f,
                10,
            );
            &&& (word & 0x000f) * 10 <= u16::MAX
            &&& folded <= u16::MAX
            &&& folded == digit_of(lane(word as u128, 0)) * 10
                + digit_of(lane(word as u128, 1))
        }),
{
}

/// Decodes two packed digit bytes in one round: a round folds each pair of
/// neighbouring groups as `first * 10^size + second` and doubles the group
/// size. The result is the number that the two lanes write, lane 0 most
/// significant, each lane counted with its low four bits.
#[inline(always)]
#[must_use]
pub fn two_to_u16(chunk: u16) -> (value: u16)
    ensures
        value == decimal_value(lanes(chunk as u128, 2)),
{
    proof {
        lemma_round1_u16(chunk);
    }
    let value: u16 = ((chunk & 0x0f00) >> 8) + (chunk & 0x000f) * 10;
    proof {
        lemma_lanes_value(chunk as u128, 2);
    }
    value
}

/// Round 1 on four lanes does not overflow, and folds the lanes in
/// pairs: the first of a pair counts ten times.
proof fn lemma_round1_u32(word: u32)
    by (bit_vector)
    ensures
        ({
            let folded = fold_round(
                word as u128,
                0x0f00_0f00,
                8,
                0x000f_000f,
                10,
            );
            &&& (word & 0x000f_000f) * 10 <= u32::MAX
            &&& folded <= u32::MAX
            &&& field(folded as u128, 0, 0xff) == digit_of(lane(word as u128, 0)) * 10
                + digit_of(lane(word as u128, 1))
            &&& field(folded as u128, 16, 0xff) == digit_of(lane(word as u128, 2)) * 10
                + digit_of(lane(word as u128, 3))
        }),
{
}

/// Round 2 on four lanes does not overflow, and folds the groups of 2 lanes in
/// pairs: the first of a pair counts a hundred times.
proof fn lemma_round2_u32(word: u32)
    by (bit_vector)
    ensures
        ({
            let folded = fold_round(
                word as u128,
                0x00ff_0000,
                16,
                0x0000_00ff,
                100,
            );
            &&& (word & 0x0000_00ff) * 100 <= u32::MAX
            &&& folded <= u32::MAX
            &&& folded == field(word as u128, 0, 0xff) * 100
                + field(word as u128, 16, 0xff)
        }),
{
}

/// Decodes four packed digit bytes in two rounds: a round folds each pair of
/// neighbouring groups as `first * 10^size + second` and doubles the group
/// size. The result is the number that the four lanes write, lane 0 most
/// significant, each lane counted with its low four bits.
#[inline(always)]
#[must_use]
pub fn four_to_u32(chunk: u32) -> (value: u32)
    ensures
        value == decimal_value(lanes(chunk as u128, 4)),
{
    proof {
        lemma_round1_u32(chunk);
    }
    let pairs: u32 = ((chunk & 0x0f00_0f00) >> 8) + (chunk & 0x000f_000f) * 10;
    proof {
        lemma_round2_u32(pairs);
    }
    let value: u32 = ((pairs & 0x00ff_0000) >> 16) + (pairs & 0x0000_00ff) * 100;
    proof {
        lemma_lanes_value(chunk as u128, 4);
    }
    value
}

/// Round 1 on eight lanes does not overflow, and folds the lanes in
/// pairs: the first of a pair counts ten times.
proof fn lemma_round1_u64(word: u64)
    by (bit_vector)
    ensures
        ({
            let folded = fold_round(
                word as u128,
                0x0f00_0f00_0f00_0f00,
                8,
                0x000f_000f_000f_000f,
                10,
            );
            &&& (word & 0x000f_000f_000f_000f) * 10 <= u64::MAX
            &&& folded <= u64::MAX
            &&& field(folded as u128, 0, 0xff) == digit_of(lane(word as u128, 0)) * 10
                + digit_of(lane(word as u128, 1))
            &&& field(folded as u128, 16, 0xff) == digit_of(lane(word as u128, 2)) * 10
                + digit_of(lane(word as u128, 3))
            &&& field(folded as u128, 32, 0xff) == digit_of(lane(word as u128, 4)) * 10
                + digit_of(lane(word as u128, 5))
            &&& field(folded as u128, 48, 0xff) == digit_of(lane(word as u128, 6)) * 10
                + digit_of(lane(word as u128, 7))
        }),
{
}

/// Round 2 on eight lanes does not overflow, and folds the groups of 2 lanes in
/// pairs: the first of a pair counts a hundred times.
proof fn lemma_round2_u64(word: u64)
    by (bit_vector)
    ensures
        ({
            let folded = fold_round(
                word as u128,
                0x00ff_0000_00ff_0000,
                16,
                0x0000_00ff_0000_00ff,
                100,
            );
            &&& (word & 0x0000_00ff_0000_00ff) * 100 <= u64::MAX
            &&& folded <= u64::MAX
            &&& field(folded as u128, 0, 0xffff) == field(word as u128, 0, 0xff) * 100
                + field(word as u128, 16, 0xff)
            &&& field(folded as u128, 32, 0xffff) == field(word as u128, 32, 0xff) * 100
                + field(word as u128, 48, 0xff)
        }),
{
}

/// Round 3 on eight lanes does not overflow, and folds the groups of 4 lanes in
/// pairs: the first of a pair counts ten thousand times.
proof fn lemma_round3_u64(word: u64)
    by (bit_vector)
    ensures
        ({
            let folded = fold_round(
                word as u128,
                0x0000_ffff_0000_0000,
                32,
                0x0000_0000_0000_ffff,
                10000,
            );
            &&& (word & 0x0000_0000_0000_ffff) * 10000 <= u64::MAX
            &&& folded <= u64::MAX
            &&& folded == field(word as u128, 0, 0xffff) * 10000
                + field(word as u128, 32, 0xffff)
        }),
{
}

/// Decodes eight packed digit bytes in three rounds: a round folds each pair of
/// neighbouring groups as `first * 10^size + second` and doubles the group
/// size. The result is the number that the eight lanes write, lane 0 most
/// significant, each lane counted with its low four bits.
#[inline(always)]
#[must_use]
pub fn eight_to_u64(chunk: u64) -> (value: u64)
    ensures
        value == decimal_value(lanes(chunk as u128, 8)),
{
    proof {
        lemma_round1_u64(chunk);
    }
    let pairs: u64 = ((chunk & 0x0f00_0f00_0f00_0f00) >> 8) + (chunk & 0x000f_000f_000f_000f) * 10;
    proof {
        lemma_round2_u64(pairs);
    }
    let quads: u64 = ((pairs & 0x00ff_0000_00ff_0000) >> 16)
        + (pairs & 0x0000_00ff_0000_00ff) * 100;
    proof {
        lemma_round3_u64(quads);
    }
    let value: u64 = ((quads & 0x0000_ffff_0000_0000) >> 32)
        + (quads & 0x0000_0000_0000_ffff) * 10000;
    proof {
        lemma_lanes_value(chunk as u128, 8);
    }
    value
}

/// Round 1 on sixteen lanes does not overflow, and folds the lanes in
/// pairs: the first of a pair counts ten times.
proof fn lemma_round1_u128(word: u128)
    by (bit_vector)
    ensures
        ({
            let folded = fold_round(
                word as u128,
                0x0f00_0f00_0f00_0f00_0f00_0f00_0f00_0f00,
                8,
                0x000f_000f_000f_000f_000f_000f_000f_000f,
                10,
            );
            &&& (word & 0x000f_000f_000f_000f_000f_000f_000f_000f) * 10 <= u128::MAX
            &&& folded <= u128::MAX
            &&& field(folded as u128, 0, 0xff) == digit_of(lane(word as u128, 0)) * 10
                + digit_of(lane(word as u128, 1))
            &&& field(folded as u128, 16, 0xff) == digit_of(lane(word as u128, 2)) * 10
                + digit_of(lane(word as u128, 3))
            &&& field(folded as u128, 32, 0xff) == digit_of(lane(word as u128, 4)) * 10
                + digit_of(lane(word as u128, 5))
            &&& field(folded as u128, 48, 0xff) == digit_of(lane(word as u128, 6)) * 10
                + digit_of(lane(word as u128, 7))
            &&& field(folded as u128, 64, 0xff) == digit_of(lane(word as u128, 8)) * 10
                + digit_of(lane(word as u128, 9))
            &&& field(folded as u128, 80, 0xff) == digit_of(lane(word as u128, 10)) * 10
                + digit_of(lane(word as u128, 11))
            &&& field(folded as u128, 96, 0xff) == digit_of(lane(word as u128, 12)) * 10
                + digit_of(lane(word as u128, 13))
            &&& field(folded as u128, 112, 0xff) == digit_of(lane(word as u128, 14)) * 10
                + digit_of(lane(word as u128, 15))
        }),
{
}

/// Round 2 on sixteen lanes does not overflow, and folds the groups of 2 lanes in
/// pairs: the first of a pair counts a hundred times.
proof fn lemma_round2_u128(word: u128)
    by (bit_vector)
    ensures
        ({
            let folded = fold_round(
                word as u128,
                0x00ff_0000_00ff_0000_00ff_0000_00ff_0000,
                16,
                0x0000_00ff_0000_00ff_0000_00ff_0000_00ff,
                100,
            );
            &&& (word & 0x0000_00ff_0000_00ff_0000_00ff_0000_00ff) * 100 <= u128::MAX
            &&& folded <= u128::MAX
            &&& field(folded as u128, 0, 0xffff) == field(word as u128, 0, 0xff) * 100
                + field(word as u128, 16, 0xff)
            &&& field(folded as u128, 32, 0xffff) == field(word as u128, 32, 0xff) * 100
                + field(word as u128, 48, 0xff)
            &&& field(folded as u128, 64, 0xffff) == field(word as u128, 64, 0xff) * 100
                + field(word as u128, 80, 0xff)
            &&& field(folded as u128, 96, 0xffff) == field(word as u128, 96, 0xff) * 100
                + field(word as u128, 112, 0xff)
        }),
{
}

/// Round 3 on sixteen lanes does not overflow, and folds the groups of 4 lanes in
/// pairs: the first of a pair counts ten thousand times.
proof fn lemma_round3_u128(word: u128)
    by (bit_vector)
    ensures
        ({
            let folded = fold_round(
                word as u128,
                0x0000_ffff_0000_0000_0000_ffff_0000_0000,
                32,
                0x0000_0000_0000_ffff_0000_0000_0000_ffff,
                10000,
            );
            &&& (word & 0x0000_0000_0000_ffff_0000_0000_0000_ffff) * 10000 <= u128::MAX
            &&& folded <= u128::MAX
            &&& field(folded as u128, 0, 0xffff_ffff) == field(word as u128, 0, 0xffff) * 10000
                + field(word as u128, 32, 0xffff)
            &&& field(folded as u128, 64, 0xffff_ffff) == field(word as u128, 64, 0xffff) * 10000
                + field(word as u128, 96, 0xffff)
        }),
{
}

/// Round 4 on sixteen lanes does not overflow, and folds the groups of 8 lanes in
/// pairs: the first of a pair counts a hundred million times.
proof fn lemma_round4_u128(word: u128)
    by (bit_vector)
    ensures
        ({
            let folded = fold_round(
                word as u128,
                0x0000_0000_ffff_ffff_0000_0000_0000_0000,
                64,
                0x0000_0000_0000_0000_0000_0000_ffff_ffff,
                100000000,
            );
            &&& (word & 0x0000_0000_0000_0000_0000_0000_ffff_ffff) * 100000000 <= u128::MAX
            &&& folded <= u128::MAX
            &&& folded == field(word as u128, 0, 0xffff_ffff) * 100000000
                + field(word as u128, 64, 0xffff_ffff)
        }),
{
}

/// Decodes sixteen packed digit bytes in four rounds: a round folds each pair of
/// neighbouring groups as `first * 10^size + second` and doubles the group
/// size. The result is the number that the sixteen lanes write, lane 0 most
/// significant, each lane counted with its low four bits.
#[inline(always)]
#[must_use]
pub fn sixteen_to_u128(chunk: u128) -> (value: u128)
    ensures
        value == decimal_value(lanes(chunk as u128, 16)),
{
    proof {
        lemma_round1_u128(chunk);
    }
    let pairs: u128 = ((chunk & 0x0f00_0f00_0f00_0f00_0f00_0f00_0f00_0f00) >> 8)
        + (chunk & 0x000f_000f_000f_000f_000f_000f_000f_000f) * 10;
    proof {
        lemma_round2_u128(pairs);
    }
    let quads: u128 = ((pairs & 0x00ff_0000_00ff_0000_00ff_0000_00ff_0000) >> 16)
        + (pairs & 0x0000_00ff_0000_00ff_0000_00ff_0000_00ff) * 100;
    proof {
        lemma_round3_u128(quads);
    }
    let eights: u128 = ((quads & 0x0000_ffff_0000_0000_0000_ffff_0000_0000) >> 32)
        + (quads & 0x0000_0000_0000_ffff_0000_0000_0000_ffff) * 10000;
    proof {
        lemma_round4_u128(eights);
    }
    let value: u128 = ((eights & 0x0000_0000_ffff_ffff_0000_0000_0000_0000) >> 64)
        + (eights & 0x0000_0000_0000_0000_0000_0000_ffff_ffff) * 100000000;
    proof {
        lemma_lanes_value(chunk as u128, 16);
    }
    value
}

} // verus!
