//! Uniformly distributed values below a bound: Lemire's method on 16-, 32-
//! and 64-bit words, and rejection sampling on 128-bit words.
use vstd::prelude::*;
use crate::rng::{Rng, ValueFromRng, spec_value};

verus! {

/// 2 to the power of `bits`, for the word widths the range algorithms use
/// (16, 32, 64 or 128).
pub open spec fn two_to(bits: nat) -> int {
    if bits == 16 {
        0x1_0000
    } else if bits == 32 {
        0x1_0000_0000
    } else if bits == 64 {
        0x1_0000_0000_0000_0000
    } else {
        0x1_0000_0000_0000_0000_0000_0000_0000_0000int
    }
}

/// One unsigned word of `bits` bits drawn the way the range algorithms draw
/// it: a u16, u32, u64 or u128 value.
pub open spec fn spec_word<R: Rng>(rng: R, bits: nat) -> (int, R) {
    if bits == 16 {
        let (v, n) = spec_value::<u16, R>(rng);
        (v as int, n)
    } else if bits == 32 {
        let (v, n) = spec_value::<u32, R>(rng);
        (v as int, n)
    } else if bits == 64 {
        let (v, n) = spec_value::<u64, R>(rng);
        (v as int, n)
    } else {
        let (v, n) = spec_value::<u128, R>(rng);
        (v as int, n)
    }
}

/// Lemire's method keeps a draw `x` for `span` values unless the low word of
/// `x * span` falls below `2^bits mod span`.
pub open spec fn lemire_accepts(x: int, span: int, bits: nat) -> bool {
    span == 0 || (x * span) % two_to(bits) >= (two_to(bits) - span) % span
}

/// The value Lemire's method makes of a kept draw: the high word of `x * span`.
pub open spec fn lemire_value(x: int, span: int, bits: nat) -> int {
    (x * span) / two_to(bits)
}

/// Lemire's method for a value below `span`, drawing words of `bits` bits
/// until one is kept; `None` when more than `fuel` draws are turned down.
pub open spec fn spec_lemire<R: Rng>(rng: R, span: int, bits: nat, fuel: nat) -> Option<(int, R)>
    decreases fuel,
{
    let (x, next) = spec_word(rng, bits);
    if lemire_accepts(x, span, bits) {
        Some((lemire_value(x, span, bits), next))
    } else if fuel == 0 {
        None
    } else {
        spec_lemire(next, span, bits, (fuel - 1) as nat)
    }
}

/// The largest u128 draw that rejection sampling keeps for `span` values:
/// the draws up to it cover every value below `span` equally often.
pub open spec fn rejection_limit(span: int) -> int {
    (two_to(128) - 1) - (two_to(128) - span) % span
}

/// Rejection sampling for a u128 value below `span`: draw until a draw is at
/// most `rejection_limit(span)`, then take it modulo `span`; `None` when more
/// than `fuel` draws are turned down.
pub open spec fn spec_rejection<R: Rng>(rng: R, span: int, fuel: nat) -> Option<(int, R)>
    decreases fuel,
{
    let (x, next) = spec_word(rng, 128);
    if x <= rejection_limit(span) {
        Some((x % span, next))
    } else if fuel == 0 {
        None
    } else {
        spec_rejection(next, span, (fuel - 1) as nat)
    }
}

/// A uniformly distributed value below `span`, drawn with words of `bits` bits.
pub open spec fn spec_zero_based<R: Rng>(rng: R, span: int, bits: nat, fuel: nat) -> Option<(int, R)> {
    if bits == 128 {
        spec_rejection(rng, span, fuel)
    } else {
        spec_lemire(rng, span, bits, fuel)
    }
}

/// A value Lemire's method keeps lies below `span`.
pub proof fn lemma_lemire_value_bound(x: int, span: int, bits: nat)
    requires
        bits == 16 || bits == 32 || bits == 64,
        0 <= x < two_to(bits),
        0 <= span < two_to(bits),
    ensures
        span == 0 ==> lemire_value(x, span, bits) == 0,
        span > 0 ==> 0 <= lemire_value(x, span, bits) < span,
{
    let n = two_to(bits);
    assert(x * span <= (n - 1) * span) by (nonlinear_arith)
        requires
            0 <= x < n,
            0 <= span,
    ;
    assert((n - 1) * span < n * span || span == 0) by (nonlinear_arith)
        requires
            0 <= span,
    ;
    assert(0 <= x * span) by (nonlinear_arith)
        requires
            0 <= x,
            0 <= span,
    ;
    if span > 0 {
        assert((x * span) / n < span) by (nonlinear_arith)
            requires
                0 <= x * span < n * span,
                n > 0,
        ;
        assert((x * span) / n >= 0) by (nonlinear_arith)
            requires
                0 <= x * span,
                n > 0,
        ;
    } else {
        assert(x * span == 0) by (nonlinear_arith)
            requires
                span == 0,
        ;
    }
}

proof fn lemma_split_u64(m: u64)
    by (bit_vector)
    ensures
        m >> 32u64 == m / 0x1_0000_0000,
        (m >> 32u64) < 0x1_0000_0000,
        m as u32 == m % 0x1_0000_0000,
{
}

proof fn lemma_product_u32(x: u32, span: u32)
    ensures
        0 <= x as int * span as int <= u64::MAX,
{
    assert(0 <= x as int * span as int <= 0xffff_ffff * 0xffff_ffff) by (nonlinear_arith)
        requires
            x <= 0xffff_ffff,
            span <= 0xffff_ffff,
    ;
}

/// Lemire's method on u32 draws: a uniformly distributed value below `span`
/// (0 when `span` is 0).
pub(crate) fn zero_based_u32<R: Rng>(rng: &mut R, span: u32) -> (r: u32)
    requires
        exists|fuel: nat| spec_lemire(*old(rng), span as int, 32, fuel) is Some,
    ensures
        exists|fuel: nat| spec_lemire(*old(rng), span as int, 32, fuel) == Some((r as int, *final(rng))),
        span > 0 ==> r < span,
{
    let ghost start = *rng;
    let ghost budget0: nat = choose|fuel: nat| spec_lemire(start, span as int, 32, fuel) is Some;
    let ghost mut budget: nat = budget0;
    let ghost mut prev = start;
    let x = u32::value_from_rng(rng);
    proof {
        lemma_product_u32(x, span);
    }
    let m = (x as u64) * (span as u64);
    proof {
        lemma_split_u64(m);
    }
    let mut high = (m >> 32) as u32;
    let mut low = m as u32;
    let ghost mut xg: int = x as int;
    if low < span {
        let threshold = 0u32.wrapping_sub(span) % span;
        while low < threshold
            invariant
                0 < span,
                threshold as int == (0x1_0000_0000 - span as int) % (span as int),
                spec_lemire(start, span as int, 32, budget0) == spec_lemire(prev, span as int, 32, budget),
                spec_lemire(prev, span as int, 32, budget) is Some,
                spec_word(prev, 32) == (xg, *rng),
                high as int == lemire_value(xg, span as int, 32),
                low as int == (xg * span as int) % 0x1_0000_0000,
            decreases budget,
        {
            assert(!lemire_accepts(xg, span as int, 32));
            assert(budget > 0);
            proof {
                prev = *rng;
                budget = (budget - 1) as nat;
            }
            let x = u32::value_from_rng(rng);
            proof {
                lemma_product_u32(x, span);
                xg = x as int;
            }
            let m = (x as u64) * (span as u64);
            proof {
                lemma_split_u64(m);
            }
            high = (m >> 32) as u32;
            low = m as u32;
        }
    }
    assert(lemire_accepts(xg, span as int, 32));
    proof {
        lemma_lemire_value_bound(xg, span as int, 32);
    }
    high
}

proof fn lemma_split_u32(m: u32)
    by (bit_vector)
    ensures
        m >> 16u32 == m / 0x1_0000,
        (m >> 16u32) < 0x1_0000,
        m as u16 == m % 0x1_0000,
{
}

proof fn lemma_product_u16(x: u16, span: u16)
    ensures
        0 <= x as int * span as int <= u32::MAX,
{
    assert(0 <= x as int * span as int <= 0xffff * 0xffff) by (nonlinear_arith)
        requires
            x <= 0xffff,
            span <= 0xffff,
    ;
}

/// Lemire's method on u16 draws: a uniformly distributed value below `span`
/// (0 when `span` is 0).
pub(crate) fn zero_based_u16<R: Rng>(rng: &mut R, span: u16) -> (r: u16)
    requires
        exists|fuel: nat| spec_lemire(*old(rng), span as int, 16, fuel) is Some,
    ensures
        exists|fuel: nat| spec_lemire(*old(rng), span as int, 16, fuel) == Some((r as int, *final(rng))),
        span > 0 ==> r < span,
{
    let ghost start = *rng;
    let ghost budget0: nat = choose|fuel: nat| spec_lemire(start, span as int, 16, fuel) is Some;
    let ghost mut budget: nat = budget0;
    let ghost mut prev = start;
    let x = u16::value_from_rng(rng);
    proof {
        lemma_product_u16(x, span);
    }
    let m = (x as u32) * (span as u32);
    proof {
        lemma_split_u32(m);
    }
    let mut high = (m >> 16) as u16;
    let mut low = m as u16;
    let ghost mut xg: int = x as int;
    if low < span {
        let threshold = 0u16.wrapping_sub(span) % span;
        while low < threshold
            invariant
                0 < span,
                threshold as int == (0x1_0000 - span as int) % (span as int),
                spec_lemire(start, span as int, 16, budget0) == spec_lemire(prev, span as int, 16, budget),
                spec_lemire(prev, span as int, 16, budget) is Some,
                spec_word(prev, 16) == (xg, *rng),
                high as int == lemire_value(xg, span as int, 16),
                low as int == (xg * span as int) % 0x1_0000,
            decreases budget,
        {
            assert(!lemire_accepts(xg, span as int, 16));
            assert(budget > 0);
            proof {
                prev = *rng;
                budget = (budget - 1) as nat;
            }
            let x = u16::value_from_rng(rng);
            proof {
                lemma_product_u16(x, span);
                xg = x as int;
            }
            let m = (x as u32) * (span as u32);
            proof {
                lemma_split_u32(m);
            }
            high = (m >> 16) as u16;
            low = m as u16;
        }
    }
    assert(lemire_accepts(xg, span as int, 16));
    proof {
        lemma_lemire_value_bound(xg, span as int, 16);
    }
    high
}

proof fn lemma_split_u128(m: u128)
    by (bit_vector)
    ensures
        m >> 64u128 == m / 0x1_0000_0000_0000_0000,
        (m >> 64u128) < 0x1_0000_0000_0000_0000,
        m as u64 == m % 0x1_0000_0000_0000_0000,
{
}

proof fn lemma_product_u64(x: u64, span: u64)
    ensures
        0 <= x as int * span as int <= u128::MAX,
{
    assert(0 <= x as int * span as int <= 0xffff_ffff_ffff_ffff * 0xffff_ffff_ffff_ffff) by (nonlinear_arith)
        requires
            x <= 0xffff_ffff_ffff_ffff,
            span <= 0xffff_ffff_ffff_ffff,
    ;
}

/// Lemire's method on u64 draws: a uniformly distributed value below `span`
/// (0 when `span` is 0).
pub(crate) fn zero_based_u64<R: Rng>(rng: &mut R, span: u64) -> (r: u64)
    requires
        exists|fuel: nat| spec_lemire(*old(rng), span as int, 64, fuel) is Some,
    ensures
        exists|fuel: nat| spec_lemire(*old(rng), span as int, 64, fuel) == Some((r as int, *final(rng))),
        span > 0 ==> r < span,
{
    let ghost start = *rng;
    let ghost budget0: nat = choose|fuel: nat| spec_lemire(start, span as int, 64, fuel) is Some;
    let ghost mut budget: nat = budget0;
    let ghost mut prev = start;
    let x = u64::value_from_rng(rng);
    proof {
        lemma_product_u64(x, span);
    }
    let m = (x as u128) * (span as u128);
    proof {
        lemma_split_u128(m);
    }
    let mut high = (m >> 64) as u64;
    let mut low = m as u64;
    let ghost mut xg: int = x as int;
    if low < span {
        let threshold = 0u64.wrapping_sub(span) % span;
        while low < threshold
            invariant
                0 < span,
                threshold as int == (0x1_0000_0000_0000_0000 - span as int) % (span as int),
                spec_lemire(start, span as int, 64, budget0) == spec_lemire(prev, span as int, 64, budget),
                spec_lemire(prev, span as int, 64, budget) is Some,
                spec_word(prev, 64) == (xg, *rng),
                high as int == lemire_value(xg, span as int, 64),
                low as int == (xg * span as int) % 0x1_0000_0000_0000_0000,
            decreases budget,
        {
            assert(!lemire_accepts(xg, span as int, 64));
            assert(budget > 0);
            proof {
                prev = *rng;
                budget = (budget - 1) as nat;
            }
            let x = u64::value_from_rng(rng);
            proof {
                lemma_product_u64(x, span);
                xg = x as int;
            }
            let m = (x as u128) * (span as u128);
            proof {
                lemma_split_u128(m);
            }
            high = (m >> 64) as u64;
            low = m as u64;
        }
    }
    assert(lemire_accepts(xg, span as int, 64));
    proof {
        lemma_lemire_value_bound(xg, span as int, 64);
    }
    high
}

/// Rejection sampling on u128 draws: a uniformly distributed value below `span`.
pub(crate) fn zero_based_u128<R: Rng>(rng: &mut R, span: u128) -> (r: u128)
    requires
        span > 0,
        exists|fuel: nat| spec_rejection(*old(rng), span as int, fuel) is Some,
    ensures
        exists|fuel: nat| spec_rejection(*old(rng), span as int, fuel) == Some((r as int, *final(rng))),
        r < span,
{
    let ghost start = *rng;
    let ghost budget0: nat = choose|fuel: nat| spec_rejection(start, span as int, fuel) is Some;
    let ghost mut budget: nat = budget0;
    let ghost mut prev = start;
    let mut random_value = u128::value_from_rng(rng);
    let reduced_max = u128::MAX - span + 1;
    let max_valid_value = u128::MAX - (reduced_max % span);
    while random_value > max_valid_value
        invariant
            0 < span,
            max_valid_value as int == rejection_limit(span as int),
            spec_rejection(start, span as int, budget0) == spec_rejection(prev, span as int, budget),
            spec_rejection(prev, span as int, budget) is Some,
            spec_word(prev, 128) == (random_value as int, *rng),
        decreases budget,
    {
        assert(budget > 0);
        proof {
            prev = *rng;
            budget = (budget - 1) as nat;
        }
        random_value = u128::value_from_rng(rng);
    }
    random_value % span
}

/// What a uniformly drawn value below `span` can be: below `span`, and 0 when
/// `span` is 0.
pub proof fn lemma_zero_based_bound<R: Rng>(rng: R, span: int, bits: nat, fuel: nat)
    requires
        bits == 16 || bits == 32 || bits == 64 || bits == 128,
        0 <= span < two_to(bits),
        bits == 128 ==> span > 0,
        spec_zero_based(rng, span, bits, fuel) is Some,
    ensures
        span > 0 ==> 0 <= spec_zero_based(rng, span, bits, fuel).unwrap().0 < span,
        span == 0 ==> spec_zero_based(rng, span, bits, fuel).unwrap().0 == 0,
    decreases fuel,
{
    let (x, next) = spec_word(rng, bits);
    if bits == 128 {
        if x > rejection_limit(span) {
            lemma_zero_based_bound(next, span, bits, (fuel - 1) as nat);
        }
    } else {
        if lemire_accepts(x, span, bits) {
            lemma_lemire_value_bound(x, span, bits);
        } else {
            lemma_zero_based_bound(next, span, bits, (fuel - 1) as nat);
        }
    }
}

} // verus!
