//! Uniformly distributed integers in a range, for every integer type.
use vstd::prelude::*;
use vstd::arithmetic::div_mod::{
    lemma_small_mod, lemma_mod_bound, lemma_mod_decreases, lemma_mod_multiples_basic,
};
use crate::ranges::{GenerateRange, IntoGenerateRange, RangeValue};
use crate::rng::{Rng, ValueFromRng};
use crate::zero_based::{
    two_to, spec_word, lemire_accepts, lemire_value, rejection_limit, spec_zero_based, spec_lemire,
    spec_rejection, lemma_zero_based_bound, zero_based_u16, zero_based_u32, zero_based_u64,
    zero_based_u128,
};

verus! {

/// Turns a draw `g` into a value of a type whose values run from `type_min` to
/// `type_max`, keeping its low bits the way an `as` cast does.
pub open spec fn wrap_into(g: int, type_min: int, type_max: int) -> int {
    let size = type_max - type_min + 1;
    let t = g % size;
    if t > type_max {
        t - size
    } else {
        t
    }
}

/// What drawing from the range `lo..=hi` of a type whose values run from
/// `type_min` to `type_max` makes of one word `g` of `bits` bits: the value,
/// or `None` when the word is turned down. For the whole type the word is
/// cast to the type; otherwise it is `lo` plus what Lemire's method (or, for
/// 128-bit words, rejection sampling) makes of the word for the range's size
/// taken modulo `2^bits`.
pub open spec fn range_word_value(g: int, lo: int, hi: int, type_min: int, type_max: int, bits: nat) -> Option<int> {
    if lo == type_min && hi == type_max {
        Some(wrap_into(g, type_min, type_max))
    } else {
        let span = (hi - lo + 1) % two_to(bits);
        if bits == 128 {
            if g <= rejection_limit(span) {
                Some(lo + g % span)
            } else {
                None
            }
        } else if lemire_accepts(g, span, bits) {
            Some(lo + lemire_value(g, span, bits))
        } else {
            None
        }
    }
}

/// What `range_from_rng` gives for the range `lo..=hi` of a type whose values
/// run from `type_min` to `type_max`, drawing words of `bits` bits until one
/// is kept, and the generator after the draws; `None` when more than `fuel`
/// words are turned down.
pub open spec fn spec_range_value<R: Rng>(
    rng: R,
    lo: int,
    hi: int,
    type_min: int,
    type_max: int,
    bits: nat,
    fuel: nat,
) -> Option<(int, R)>
    decreases fuel,
{
    let (g, next) = spec_word(rng, bits);
    match range_word_value(g, lo, hi, type_min, type_max, bits) {
        Some(w) => Some((w, next)),
        None => if fuel == 0 {
            None
        } else {
            spec_range_value(next, lo, hi, type_min, type_max, bits, (fuel - 1) as nat)
        },
    }
}

/// Below the whole type, a range value is `lo` plus a uniformly drawn value
/// below the range's size.
pub proof fn lemma_range_value_zero_based<R: Rng>(
    rng: R,
    lo: int,
    hi: int,
    type_min: int,
    type_max: int,
    bits: nat,
    fuel: nat,
)
    requires
        !(lo == type_min && hi == type_max),
    ensures
        spec_range_value(rng, lo, hi, type_min, type_max, bits, fuel) == match spec_zero_based(
            rng,
            (hi - lo + 1) % two_to(bits),
            bits,
            fuel,
        ) {
            Some((v, next)) => Some((lo + v, next)),
            None => None,
        },
    decreases fuel,
{
    let (g, next) = spec_word(rng, bits);
    if fuel > 0 {
        lemma_range_value_zero_based(next, lo, hi, type_min, type_max, bits, (fuel - 1) as nat);
    }
}

/// A range whose every word is kept: the whole type, or a range whose
/// number of values divides `2^bits`. Its first draw gives the value.
pub proof fn lemma_range_value_first_kept<R: Rng>(
    rng: R,
    lo: int,
    hi: int,
    type_min: int,
    type_max: int,
    bits: nat,
)
    requires
        bits == 16 || bits == 32 || bits == 64 || bits == 128,
        lo <= hi,
        (lo == type_min && hi == type_max) || (hi - lo + 1 < two_to(bits) && two_to(bits) % (hi
            - lo + 1) == 0),
    ensures
        spec_range_value(rng, lo, hi, type_min, type_max, bits, 0) is Some,
{
    if !(lo == type_min && hi == type_max) {
        let span = hi - lo + 1;
        let m = two_to(bits);
        lemma_small_mod(span as nat, m as nat);
        let q = m / span;
        assert(m == q * span && q >= 1) by (nonlinear_arith)
            requires
                0 < span < m,
                m % span == 0,
                q == m / span,
        ;
        assert((m - span) % span == 0) by (nonlinear_arith)
            requires
                m == q * span,
                q >= 1,
                span > 0,
        ;
        let g = spec_word(rng, bits).0;
        if bits != 128 {
            lemma_mod_bound(g * span, m);
        }
    }
}

/// The draws of a range end for every generator when the range is the whole
/// type or its number of values divides the number of words: the first word
/// is always kept.
pub proof fn lemma_range_terminates<T: RangeFromRng, R: Rng>(rng: R, lo: int, hi: int)
    requires
        T::spec_min() <= lo <= hi <= T::spec_max(),
        (lo == T::spec_min() && hi == T::spec_max()) || two_to(T::spec_word_bits(lo, hi)) % (hi
            - lo + 1) == 0,
    ensures
        spec_range_value(rng, lo, hi, T::spec_min(), T::spec_max(), T::spec_word_bits(lo, hi), 0) is Some,
{
    T::lemma_word_bits(lo, hi);
    lemma_range_value_first_kept(rng, lo, hi, T::spec_min(), T::spec_max(), T::spec_word_bits(lo, hi));
}

/// Shifting a range (other than the whole type) by `k` shifts the value by
/// `k` and draws the same words.
pub proof fn lemma_range_value_shift<R: Rng>(
    rng: R,
    lo: int,
    hi: int,
    k: int,
    type_min: int,
    type_max: int,
    bits: nat,
    fuel: nat,
)
    requires
        !(lo == type_min && hi == type_max),
        !(lo + k == type_min && hi + k == type_max),
    ensures
        spec_range_value(rng, lo + k, hi + k, type_min, type_max, bits, fuel) == match spec_range_value(
            rng,
            lo,
            hi,
            type_min,
            type_max,
            bits,
            fuel,
        ) {
            Some((v, next)) => Some((v + k, next)),
            None => None,
        },
    decreases fuel,
{
    let (g, next) = spec_word(rng, bits);
    assert((hi + k) - (lo + k) + 1 == hi - lo + 1);
    if fuel > 0 {
        lemma_range_value_shift(next, lo, hi, k, type_min, type_max, bits, (fuel - 1) as nat);
    }
}

/// Shifting a range of `T` other than the whole type by `k`, within the
/// type, shifts the value drawn by `k` and leaves the generator where the
/// unshifted range leaves it: the same words are drawn, and the draws end for
/// one range exactly when they end for the other.
pub proof fn lemma_range_shift<T: RangeFromRng, R: Rng>(rng: R, lo: int, hi: int, k: int, fuel: nat)
    requires
        T::spec_min() <= lo <= hi <= T::spec_max(),
        T::spec_min() <= lo + k,
        hi + k <= T::spec_max(),
        !(lo == T::spec_min() && hi == T::spec_max()),
    ensures
        spec_range_value(
            rng,
            lo + k,
            hi + k,
            T::spec_min(),
            T::spec_max(),
            T::spec_word_bits(lo + k, hi + k),
            fuel,
        ) == match spec_range_value(
            rng,
            lo,
            hi,
            T::spec_min(),
            T::spec_max(),
            T::spec_word_bits(lo, hi),
            fuel,
        ) {
            Some((v, next)) => Some((v + k, next)),
            None => None,
        },
{
    T::lemma_word_bits(lo, hi);
    assert(T::spec_word_bits(lo + k, hi + k) == T::spec_word_bits(lo, hi));
    lemma_range_value_shift(rng, lo, hi, k, T::spec_min(), T::spec_max(), T::spec_word_bits(lo, hi), fuel);
}

/// More fuel does not change a range result that was reached.
pub proof fn lemma_range_value_fuel<R: Rng>(
    rng: R,
    lo: int,
    hi: int,
    type_min: int,
    type_max: int,
    bits: nat,
    f1: nat,
    f2: nat,
)
    requires
        f1 <= f2,
        spec_range_value(rng, lo, hi, type_min, type_max, bits, f1) is Some,
    ensures
        spec_range_value(rng, lo, hi, type_min, type_max, bits, f2) == spec_range_value(
            rng,
            lo,
            hi,
            type_min,
            type_max,
            bits,
            f1,
        ),
    decreases f1,
{
    let (g, next) = spec_word(rng, bits);
    if range_word_value(g, lo, hi, type_min, type_max, bits) is None {
        lemma_range_value_fuel(next, lo, hi, type_min, type_max, bits, (f1 - 1) as nat, (f2 - 1) as nat);
    }
}

/// A type whose values can be drawn uniformly from a range.
pub trait RangeFromRng: RangeValue {
    /// The width of the words drawn for the range `lo..=hi`: 16, 32, 64 or
    /// 128 bits.
    spec fn spec_word_bits(lo: int, hi: int) -> nat;

    /// The words are wide enough for the range: for the whole type their
    /// number is a multiple of the type's, and below the whole type they
    /// outnumber the range's values.
    proof fn lemma_word_bits(lo: int, hi: int)
        requires
            Self::spec_min() <= lo <= hi <= Self::spec_max(),
        ensures
            Self::spec_word_bits(lo, hi) == 16 || Self::spec_word_bits(lo, hi) == 32
                || Self::spec_word_bits(lo, hi) == 64 || Self::spec_word_bits(lo, hi) == 128,
            Self::spec_min() <= 0 < Self::spec_max(),
            lo == Self::spec_min() && hi == Self::spec_max() ==> hi - lo + 1 <= two_to(
                Self::spec_word_bits(lo, hi),
            ) && two_to(Self::spec_word_bits(lo, hi)) % (hi - lo + 1) == 0,
            !(lo == Self::spec_min() && hi == Self::spec_max()) ==> hi - lo + 1 < two_to(
                Self::spec_word_bits(lo, hi),
            ),
            forall|k: int|
                #![trigger Self::spec_word_bits(lo + k, hi + k)]
                Self::spec_min() <= lo + k && hi + k <= Self::spec_max() && !(lo == Self::spec_min()
                    && hi == Self::spec_max()) ==> Self::spec_word_bits(lo + k, hi + k)
                    == Self::spec_word_bits(lo, hi),
    ;

    /// A uniformly distributed value in `range`. The range may not be
    /// inverted (start above end), and the generator must eventually give a
    /// word that is kept.
    fn range_from_rng<R: Rng, G: IntoGenerateRange<Self>>(rng: &mut R, range: G) -> (r: Self)
        requires
            range.spec_convertible(),
            range.spec_start() <= range.spec_end_inclusive(),
            exists|fuel: nat|
                spec_range_value(
                    *old(rng),
                    range.spec_start(),
                    range.spec_end_inclusive(),
                    Self::spec_min(),
                    Self::spec_max(),
                    Self::spec_word_bits(range.spec_start(), range.spec_end_inclusive()),
                    fuel,
                ) is Some,
        ensures
            range.spec_start() <= r.spec_int() <= range.spec_end_inclusive(),
            exists|fuel: nat|
                spec_range_value(
                    *old(rng),
                    range.spec_start(),
                    range.spec_end_inclusive(),
                    Self::spec_min(),
                    Self::spec_max(),
                    Self::spec_word_bits(range.spec_start(), range.spec_end_inclusive()),
                    fuel,
                ) == Some((r.spec_int(), *final(rng))),
    ;
}

proof fn lemma_u16_as_u8(g: u16)
    by (bit_vector)
    ensures
        g as u8 == g % 0x100,
{
}

proof fn lemma_u16_as_i8(g: u16)
    by (bit_vector)
    ensures
        g % 0x100 <= 0x7f ==> g as i8 == g % 0x100,
        g % 0x100 > 0x7f ==> g as i8 == g % 0x100 - 0x100,
{
}

proof fn lemma_i8_as_u8(e: i8)
    by (bit_vector)
    ensures
        e >= 0 ==> e as u8 == e,
        e < 0 ==> e as u8 == e + 0x100,
{
}

impl RangeFromRng for u8 {
    open spec fn spec_word_bits(lo: int, hi: int) -> nat {
        16
    }

    proof fn lemma_word_bits(lo: int, hi: int) {
        assert(u8::MAX as int - u8::MIN as int + 1 == 0x100int);
        assert(two_to(16) == 0x100int * 0x100int);
        lemma_mod_multiples_basic(0x100int, 0x100int);
    }

    fn range_from_rng<R: Rng, G: IntoGenerateRange<u8>>(rng: &mut R, range: G) -> (r: u8) {
        let ghost lo = range.spec_start();
        let ghost hi = range.spec_end_inclusive();
        let GenerateRange { start, end_inclusive } = range.into_generate_range();
        if start == u8::MIN && end_inclusive == u8::MAX {
            let ghost before = *rng;
            let g = u16::value_from_rng(rng);
            proof {
                lemma_small_mod(g as nat, two_to(16) as nat);
                lemma_u16_as_u8(g);
            }
            assert(spec_range_value(before, lo, hi, u8::MIN as int, u8::MAX as int, 16, 0) == Some(
                ((g as u8) as int, *rng),
            ));
            return g as u8;
        }
        let span = (end_inclusive.wrapping_sub(start).wrapping_add(1)) as u8;
        if span == 0 {
            return start;
        }
        proof {
            lemma_small_mod((hi - lo + 1) as nat, two_to(16) as nat);
        }
        assert((hi - lo + 1) % two_to(16) == span as int);
        let ghost before = *rng;
        proof {
            let f0 = choose|f: nat| spec_range_value(before, lo, hi, u8::MIN as int, u8::MAX as int, 16, f) is Some;
            lemma_range_value_zero_based(before, lo, hi, u8::MIN as int, u8::MAX as int, 16, f0);
        }
        let v = zero_based_u16(rng, span as u16);
        let ghost fuel = choose|fuel: nat|
            spec_lemire(before, span as int, 16, fuel) == Some((v as int, *rng));
        proof {
            lemma_range_value_zero_based(before, lo, hi, u8::MIN as int, u8::MAX as int, 16, fuel);
        }
        assert(spec_range_value(before, lo, hi, u8::MIN as int, u8::MAX as int, 16, fuel) == Some(
            ((lo + v) as int, *rng),
        ));
        start.wrapping_add(v as u8)
    }
}

impl RangeFromRng for i8 {
    open spec fn spec_word_bits(lo: int, hi: int) -> nat {
        16
    }

    proof fn lemma_word_bits(lo: int, hi: int) {
        assert(i8::MAX as int - i8::MIN as int + 1 == 0x100int);
        assert(two_to(16) == 0x100int * 0x100int);
        lemma_mod_multiples_basic(0x100int, 0x100int);
    }

    fn range_from_rng<R: Rng, G: IntoGenerateRange<i8>>(rng: &mut R, range: G) -> (r: i8) {
        let ghost lo = range.spec_start();
        let ghost hi = range.spec_end_inclusive();
        let GenerateRange { start, end_inclusive } = range.into_generate_range();
        if start == i8::MIN && end_inclusive == i8::MAX {
            let ghost before = *rng;
            let g = u16::value_from_rng(rng);
            proof {
                lemma_small_mod(g as nat, two_to(16) as nat);
                lemma_u16_as_i8(g);
            }
            assert(spec_range_value(before, lo, hi, i8::MIN as int, i8::MAX as int, 16, 0) == Some(
                ((g as i8) as int, *rng),
            ));
            return g as i8;
        }
        let wide = end_inclusive.wrapping_sub(start).wrapping_add(1);
        proof {
            lemma_i8_as_u8(wide);
        }
        let span = wide as u8;
        if span == 0 {
            return start;
        }
        proof {
            lemma_small_mod((hi - lo + 1) as nat, two_to(16) as nat);
        }
        assert((hi - lo + 1) % two_to(16) == span as int);
        let ghost before = *rng;
        proof {
            let f0 = choose|f: nat| spec_range_value(before, lo, hi, i8::MIN as int, i8::MAX as int, 16, f) is Some;
            lemma_range_value_zero_based(before, lo, hi, i8::MIN as int, i8::MAX as int, 16, f0);
        }
        let v = zero_based_u16(rng, span as u16);
        let ghost fuel = choose|fuel: nat|
            spec_lemire(before, span as int, 16, fuel) == Some((v as int, *rng));
        proof {
            lemma_range_value_zero_based(before, lo, hi, i8::MIN as int, i8::MAX as int, 16, fuel);
        }
        assert(spec_range_value(before, lo, hi, i8::MIN as int, i8::MAX as int, 16, fuel) == Some(
            ((lo + v) as int, *rng),
        ));
        proof {
            lemma_u16_as_i8(v);
        }
        start.wrapping_add(v as i8)
    }
}

proof fn lemma_u32_as_u16(g: u32)
    by (bit_vector)
    ensures
        g as u16 == g % 0x1_0000,
{
}

proof fn lemma_u32_as_i16(g: u32)
    by (bit_vector)
    ensures
        g % 0x1_0000 <= 0x7fff ==> g as i16 == g % 0x1_0000,
        g % 0x1_0000 > 0x7fff ==> g as i16 == g % 0x1_0000 - 0x1_0000,
{
}

proof fn lemma_i16_as_u16(e: i16)
    by (bit_vector)
    ensures
        e >= 0 ==> e as u16 == e,
        e < 0 ==> e as u16 == e + u16::MAX + 1,
{
}

proof fn lemma_u32_as_i32(g: u32)
    by (bit_vector)
    ensures
        g <= i32::MAX ==> g as i32 == g,
        g > i32::MAX ==> g as i32 == g - u32::MAX - 1,
{
}

proof fn lemma_i32_as_u32(e: i32)
    by (bit_vector)
    ensures
        e >= 0 ==> e as u32 == e,
        e < 0 ==> e as u32 == e + u32::MAX + 1,
{
}

proof fn lemma_u64_as_i64(g: u64)
    by (bit_vector)
    ensures
        g <= i64::MAX ==> g as i64 == g,
        g > i64::MAX ==> g as i64 == g - u64::MAX - 1,
{
}

proof fn lemma_i64_as_u64(e: i64)
    by (bit_vector)
    ensures
        e >= 0 ==> e as u64 == e,
        e < 0 ==> e as u64 == e + u64::MAX + 1,
{
}

proof fn lemma_u128_as_i128(g: u128)
    by (bit_vector)
    ensures
        g <= i128::MAX ==> g as i128 == g,
        g > i128::MAX ==> g as i128 == g - u128::MAX - 1,
{
}

proof fn lemma_i128_as_u128(e: i128)
    by (bit_vector)
    ensures
        e >= 0 ==> e as u128 == e,
        e < 0 ==> e as u128 == e + u128::MAX + 1,
{
}

impl RangeFromRng for u16 {
    open spec fn spec_word_bits(lo: int, hi: int) -> nat {
        32
    }

    proof fn lemma_word_bits(lo: int, hi: int) {
        assert(u16::MAX as int - u16::MIN as int + 1 == 0x10000int);
        assert(two_to(32) == 0x10000int * 0x10000int);
        lemma_mod_multiples_basic(0x10000int, 0x10000int);
    }

    fn range_from_rng<R: Rng, G: IntoGenerateRange<u16>>(rng: &mut R, range: G) -> (r: u16) {
        let ghost lo = range.spec_start();
        let ghost hi = range.spec_end_inclusive();
        let GenerateRange { start, end_inclusive } = range.into_generate_range();
        if start == u16::MIN && end_inclusive == u16::MAX {
            let ghost before = *rng;
            let g = u32::value_from_rng(rng);
            proof {
                lemma_small_mod(g as nat, two_to(32) as nat);
                lemma_u32_as_u16(g);
            }
            assert(spec_range_value(before, lo, hi, u16::MIN as int, u16::MAX as int, 32, 0) == Some(
                ((g as u16) as int, *rng),
            ));
            return g as u16;
        }
        let span = (end_inclusive.wrapping_sub(start).wrapping_add(1)) as u16;
        if span == 0 {
            return start;
        }
        proof {
            lemma_small_mod((hi - lo + 1) as nat, two_to(32) as nat);
        }
        assert((hi - lo + 1) % two_to(32) == (span as u32) as int);
        let ghost before = *rng;
        proof {
            let f0 = choose|f: nat| spec_range_value(before, lo, hi, u16::MIN as int, u16::MAX as int, 32, f) is Some;
            lemma_range_value_zero_based(before, lo, hi, u16::MIN as int, u16::MAX as int, 32, f0);
        }
        let v = zero_based_u32(rng, span as u32);
        let ghost fuel = choose|fuel: nat| #[trigger] spec_lemire(before, (span as u32) as int, 32, fuel) == Some((v as int, *rng));
        proof {
            lemma_range_value_zero_based(before, lo, hi, u16::MIN as int, u16::MAX as int, 32, fuel);
        }
        assert(spec_range_value(before, lo, hi, u16::MIN as int, u16::MAX as int, 32, fuel) == Some(
            ((lo + v) as int, *rng),
        ));
        start.wrapping_add(v as u16)
    }
}

impl RangeFromRng for i16 {
    open spec fn spec_word_bits(lo: int, hi: int) -> nat {
        32
    }

    proof fn lemma_word_bits(lo: int, hi: int) {
        assert(i16::MAX as int - i16::MIN as int + 1 == 0x10000int);
        assert(two_to(32) == 0x10000int * 0x10000int);
        lemma_mod_multiples_basic(0x10000int, 0x10000int);
    }

    fn range_from_rng<R: Rng, G: IntoGenerateRange<i16>>(rng: &mut R, range: G) -> (r: i16) {
        let ghost lo = range.spec_start();
        let ghost hi = range.spec_end_inclusive();
        let GenerateRange { start, end_inclusive } = range.into_generate_range();
        if start == i16::MIN && end_inclusive == i16::MAX {
            let ghost before = *rng;
            let g = u32::value_from_rng(rng);
            proof {
                lemma_small_mod(g as nat, two_to(32) as nat);
                lemma_u32_as_i16(g);
            }
            assert(spec_range_value(before, lo, hi, i16::MIN as int, i16::MAX as int, 32, 0) == Some(
                ((g as i16) as int, *rng),
            ));
            return g as i16;
        }
        let wide = end_inclusive.wrapping_sub(start).wrapping_add(1);
        proof {
            lemma_i16_as_u16(wide);
        }
        let span = wide as u16;
        if span == 0 {
            return start;
        }
        proof {
            lemma_small_mod((hi - lo + 1) as nat, two_to(32) as nat);
        }
        assert((hi - lo + 1) % two_to(32) == (span as u32) as int);
        let ghost before = *rng;
        proof {
            let f0 = choose|f: nat| spec_range_value(before, lo, hi, i16::MIN as int, i16::MAX as int, 32, f) is Some;
            lemma_range_value_zero_based(before, lo, hi, i16::MIN as int, i16::MAX as int, 32, f0);
        }
        let v = zero_based_u32(rng, span as u32);
        let ghost fuel = choose|fuel: nat| #[trigger] spec_lemire(before, (span as u32) as int, 32, fuel) == Some((v as int, *rng));
        proof {
            lemma_range_value_zero_based(before, lo, hi, i16::MIN as int, i16::MAX as int, 32, fuel);
        }
        assert(spec_range_value(before, lo, hi, i16::MIN as int, i16::MAX as int, 32, fuel) == Some(
            ((lo + v) as int, *rng),
        ));
        proof {
            lemma_u32_as_i16(v);
        }
        start.wrapping_add(v as i16)
    }
}

impl RangeFromRng for u32 {
    open spec fn spec_word_bits(lo: int, hi: int) -> nat {
        32
    }

    proof fn lemma_word_bits(lo: int, hi: int) {
        assert(u32::MAX as int - u32::MIN as int + 1 == 0x100000000int);
        assert(two_to(32) == 0x1int * 0x100000000int);
        lemma_mod_multiples_basic(0x1int, 0x100000000int);
    }

    fn range_from_rng<R: Rng, G: IntoGenerateRange<u32>>(rng: &mut R, range: G) -> (r: u32) {
        let ghost lo = range.spec_start();
        let ghost hi = range.spec_end_inclusive();
        let GenerateRange { start, end_inclusive } = range.into_generate_range();
        if start == u32::MIN && end_inclusive == u32::MAX {
            let ghost before = *rng;
            let g = u32::value_from_rng(rng);
            proof {
                lemma_small_mod(g as nat, two_to(32) as nat);
            }
            assert(spec_range_value(before, lo, hi, u32::MIN as int, u32::MAX as int, 32, 0) == Some(
                ((g as u32) as int, *rng),
            ));
            return g as u32;
        }
        let span = (end_inclusive.wrapping_sub(start).wrapping_add(1)) as u32;
        if span == 0 {
            return start;
        }
        proof {
            lemma_small_mod((hi - lo + 1) as nat, two_to(32) as nat);
        }
        assert((hi - lo + 1) % two_to(32) == (span as u32) as int);
        let ghost before = *rng;
        proof {
            let f0 = choose|f: nat| spec_range_value(before, lo, hi, u32::MIN as int, u32::MAX as int, 32, f) is Some;
            lemma_range_value_zero_based(before, lo, hi, u32::MIN as int, u32::MAX as int, 32, f0);
        }
        let v = zero_based_u32(rng, span as u32);
        let ghost fuel = choose|fuel: nat| #[trigger] spec_lemire(before, (span as u32) as int, 32, fuel) == Some((v as int, *rng));
        proof {
            lemma_range_value_zero_based(before, lo, hi, u32::MIN as int, u32::MAX as int, 32, fuel);
        }
        assert(spec_range_value(before, lo, hi, u32::MIN as int, u32::MAX as int, 32, fuel) == Some(
            ((lo + v) as int, *rng),
        ));
        start.wrapping_add(v as u32)
    }
}

impl RangeFromRng for i32 {
    open spec fn spec_word_bits(lo: int, hi: int) -> nat {
        32
    }

    proof fn lemma_word_bits(lo: int, hi: int) {
        assert(i32::MAX as int - i32::MIN as int + 1 == 0x100000000int);
        assert(two_to(32) == 0x1int * 0x100000000int);
        lemma_mod_multiples_basic(0x1int, 0x100000000int);
    }

    fn range_from_rng<R: Rng, G: IntoGenerateRange<i32>>(rng: &mut R, range: G) -> (r: i32) {
        let ghost lo = range.spec_start();
        let ghost hi = range.spec_end_inclusive();
        let GenerateRange { start, end_inclusive } = range.into_generate_range();
        if start == i32::MIN && end_inclusive == i32::MAX {
            let ghost before = *rng;
            let g = u32::value_from_rng(rng);
            proof {
                lemma_small_mod(g as nat, two_to(32) as nat);
                lemma_u32_as_i32(g);
            }
            assert(spec_range_value(before, lo, hi, i32::MIN as int, i32::MAX as int, 32, 0) == Some(
                ((g as i32) as int, *rng),
            ));
            return g as i32;
        }
        let wide = end_inclusive.wrapping_sub(start).wrapping_add(1);
        proof {
            lemma_i32_as_u32(wide);
        }
        let span = wide as u32;
        if span == 0 {
            return start;
        }
        proof {
            lemma_small_mod((hi - lo + 1) as nat, two_to(32) as nat);
        }
        assert((hi - lo + 1) % two_to(32) == (span as u32) as int);
        let ghost before = *rng;
        proof {
            let f0 = choose|f: nat| spec_range_value(before, lo, hi, i32::MIN as int, i32::MAX as int, 32, f) is Some;
            lemma_range_value_zero_based(before, lo, hi, i32::MIN as int, i32::MAX as int, 32, f0);
        }
        let v = zero_based_u32(rng, span as u32);
        let ghost fuel = choose|fuel: nat| #[trigger] spec_lemire(before, (span as u32) as int, 32, fuel) == Some((v as int, *rng));
        proof {
            lemma_range_value_zero_based(before, lo, hi, i32::MIN as int, i32::MAX as int, 32, fuel);
        }
        assert(spec_range_value(before, lo, hi, i32::MIN as int, i32::MAX as int, 32, fuel) == Some(
            ((lo + v) as int, *rng),
        ));
        proof {
            lemma_u32_as_i32(v);
        }
        start.wrapping_add(v as i32)
    }
}

impl RangeFromRng for u64 {
    open spec fn spec_word_bits(lo: int, hi: int) -> nat {
        64
    }

    proof fn lemma_word_bits(lo: int, hi: int) {
        assert(u64::MAX as int - u64::MIN as int + 1 == 0x10000000000000000int);
        assert(two_to(64) == 0x1int * 0x10000000000000000int);
        lemma_mod_multiples_basic(0x1int, 0x10000000000000000int);
    }

    fn range_from_rng<R: Rng, G: IntoGenerateRange<u64>>(rng: &mut R, range: G) -> (r: u64) {
        let ghost lo = range.spec_start();
        let ghost hi = range.spec_end_inclusive();
        let GenerateRange { start, end_inclusive } = range.into_generate_range();
        if start == u64::MIN && end_inclusive == u64::MAX {
            let ghost before = *rng;
            let g = u64::value_from_rng(rng);
            proof {
                lemma_small_mod(g as nat, two_to(64) as nat);
            }
            assert(spec_range_value(before, lo, hi, u64::MIN as int, u64::MAX as int, 64, 0) == Some(
                ((g as u64) as int, *rng),
            ));
            return g as u64;
        }
        let span = (end_inclusive.wrapping_sub(start).wrapping_add(1)) as u64;
        if span == 0 {
            return start;
        }
        proof {
            lemma_small_mod((hi - lo + 1) as nat, two_to(64) as nat);
        }
        assert((hi - lo + 1) % two_to(64) == (span as u64) as int);
        let ghost before = *rng;
        proof {
            let f0 = choose|f: nat| spec_range_value(before, lo, hi, u64::MIN as int, u64::MAX as int, 64, f) is Some;
            lemma_range_value_zero_based(before, lo, hi, u64::MIN as int, u64::MAX as int, 64, f0);
        }
        let v = zero_based_u64(rng, span as u64);
        let ghost fuel = choose|fuel: nat| #[trigger] spec_lemire(before, (span as u64) as int, 64, fuel) == Some((v as int, *rng));
        proof {
            lemma_range_value_zero_based(before, lo, hi, u64::MIN as int, u64::MAX as int, 64, fuel);
        }
        assert(spec_range_value(before, lo, hi, u64::MIN as int, u64::MAX as int, 64, fuel) == Some(
            ((lo + v) as int, *rng),
        ));
        start.wrapping_add(v as u64)
    }
}

impl RangeFromRng for i64 {
    open spec fn spec_word_bits(lo: int, hi: int) -> nat {
        64
    }

    proof fn lemma_word_bits(lo: int, hi: int) {
        assert(i64::MAX as int - i64::MIN as int + 1 == 0x10000000000000000int);
        assert(two_to(64) == 0x1int * 0x10000000000000000int);
        lemma_mod_multiples_basic(0x1int, 0x10000000000000000int);
    }

    fn range_from_rng<R: Rng, G: IntoGenerateRange<i64>>(rng: &mut R, range: G) -> (r: i64) {
        let ghost lo = range.spec_start();
        let ghost hi = range.spec_end_inclusive();
        let GenerateRange { start, end_inclusive } = range.into_generate_range();
        if start == i64::MIN && end_inclusive == i64::MAX {
            let ghost before = *rng;
            let g = u64::value_from_rng(rng);
            proof {
                lemma_small_mod(g as nat, two_to(64) as nat);
                lemma_u64_as_i64(g);
            }
            assert(spec_range_value(before, lo, hi, i64::MIN as int, i64::MAX as int, 64, 0) == Some(
                ((g as i64) as int, *rng),
            ));
            return g as i64;
        }
        let wide = end_inclusive.wrapping_sub(start).wrapping_add(1);
        proof {
            lemma_i64_as_u64(wide);
        }
        let span = wide as u64;
        if span == 0 {
            return start;
        }
        proof {
            lemma_small_mod((hi - lo + 1) as nat, two_to(64) as nat);
        }
        assert((hi - lo + 1) % two_to(64) == (span as u64) as int);
        let ghost before = *rng;
        proof {
            let f0 = choose|f: nat| spec_range_value(before, lo, hi, i64::MIN as int, i64::MAX as int, 64, f) is Some;
            lemma_range_value_zero_based(before, lo, hi, i64::MIN as int, i64::MAX as int, 64, f0);
        }
        let v = zero_based_u64(rng, span as u64);
        let ghost fuel = choose|fuel: nat| #[trigger] spec_lemire(before, (span as u64) as int, 64, fuel) == Some((v as int, *rng));
        proof {
            lemma_range_value_zero_based(before, lo, hi, i64::MIN as int, i64::MAX as int, 64, fuel);
        }
        assert(spec_range_value(before, lo, hi, i64::MIN as int, i64::MAX as int, 64, fuel) == Some(
            ((lo + v) as int, *rng),
        ));
        proof {
            lemma_u64_as_i64(v);
        }
        start.wrapping_add(v as i64)
    }
}

impl RangeFromRng for u128 {
    open spec fn spec_word_bits(lo: int, hi: int) -> nat {
        128
    }

    proof fn lemma_word_bits(lo: int, hi: int) {
        assert(u128::MAX as int - u128::MIN as int + 1 == 0x100000000000000000000000000000000int);
        assert(two_to(128) == 0x1int * 0x100000000000000000000000000000000int);
        lemma_mod_multiples_basic(0x1int, 0x100000000000000000000000000000000int);
    }

    fn range_from_rng<R: Rng, G: IntoGenerateRange<u128>>(rng: &mut R, range: G) -> (r: u128) {
        let ghost lo = range.spec_start();
        let ghost hi = range.spec_end_inclusive();
        let GenerateRange { start, end_inclusive } = range.into_generate_range();
        if start == u128::MIN && end_inclusive == u128::MAX {
            let ghost before = *rng;
            let g = u128::value_from_rng(rng);
            proof {
                lemma_small_mod(g as nat, two_to(128) as nat);
            }
            assert(spec_range_value(before, lo, hi, u128::MIN as int, u128::MAX as int, 128, 0) == Some(
                ((g as u128) as int, *rng),
            ));
            return g as u128;
        }
        let span = (end_inclusive.wrapping_sub(start).wrapping_add(1)) as u128;
        if span == 0 {
            return start;
        }
        proof {
            lemma_small_mod((hi - lo + 1) as nat, two_to(128) as nat);
        }
        assert((hi - lo + 1) % two_to(128) == (span as u128) as int);
        let ghost before = *rng;
        proof {
            let f0 = choose|f: nat| spec_range_value(before, lo, hi, u128::MIN as int, u128::MAX as int, 128, f) is Some;
            lemma_range_value_zero_based(before, lo, hi, u128::MIN as int, u128::MAX as int, 128, f0);
        }
        let v = zero_based_u128(rng, span as u128);
        let ghost fuel = choose|fuel: nat| #[trigger] spec_rejection(before, (span as u128) as int, fuel) == Some((v as int, *rng));
        proof {
            lemma_range_value_zero_based(before, lo, hi, u128::MIN as int, u128::MAX as int, 128, fuel);
        }
        assert(spec_range_value(before, lo, hi, u128::MIN as int, u128::MAX as int, 128, fuel) == Some(
            ((lo + v) as int, *rng),
        ));
        start.wrapping_add(v as u128)
    }
}

impl RangeFromRng for i128 {
    open spec fn spec_word_bits(lo: int, hi: int) -> nat {
        128
    }

    proof fn lemma_word_bits(lo: int, hi: int) {
        assert(i128::MAX as int - i128::MIN as int + 1 == 0x100000000000000000000000000000000int);
        assert(two_to(128) == 0x1int * 0x100000000000000000000000000000000int);
        lemma_mod_multiples_basic(0x1int, 0x100000000000000000000000000000000int);
    }

    fn range_from_rng<R: Rng, G: IntoGenerateRange<i128>>(rng: &mut R, range: G) -> (r: i128) {
        let ghost lo = range.spec_start();
        let ghost hi = range.spec_end_inclusive();
        let GenerateRange { start, end_inclusive } = range.into_generate_range();
        if start == i128::MIN && end_inclusive == i128::MAX {
            let ghost before = *rng;
            let g = u128::value_from_rng(rng);
            proof {
                lemma_small_mod(g as nat, two_to(128) as nat);
                lemma_u128_as_i128(g);
            }
            assert(spec_range_value(before, lo, hi, i128::MIN as int, i128::MAX as int, 128, 0) == Some(
                ((g as i128) as int, *rng),
            ));
            return g as i128;
        }
        let wide = end_inclusive.wrapping_sub(start).wrapping_add(1);
        proof {
            lemma_i128_as_u128(wide);
        }
        let span = wide as u128;
        if span == 0 {
            return start;
        }
        proof {
            lemma_small_mod((hi - lo + 1) as nat, two_to(128) as nat);
        }
        assert((hi - lo + 1) % two_to(128) == (span as u128) as int);
        let ghost before = *rng;
        proof {
            let f0 = choose|f: nat| spec_range_value(before, lo, hi, i128::MIN as int, i128::MAX as int, 128, f) is Some;
            lemma_range_value_zero_based(before, lo, hi, i128::MIN as int, i128::MAX as int, 128, f0);
        }
        let v = zero_based_u128(rng, span as u128);
        let ghost fuel = choose|fuel: nat| #[trigger] spec_rejection(before, (span as u128) as int, fuel) == Some((v as int, *rng));
        proof {
            lemma_range_value_zero_based(before, lo, hi, i128::MIN as int, i128::MAX as int, 128, fuel);
        }
        assert(spec_range_value(before, lo, hi, i128::MIN as int, i128::MAX as int, 128, fuel) == Some(
            ((lo + v) as int, *rng),
        ));
        proof {
            lemma_u128_as_i128(v);
        }
        start.wrapping_add(v as i128)
    }
}

impl RangeFromRng for usize {
    /// The whole type is drawn from words as wide as `usize`; a smaller
    /// range from 32-bit words while it has fewer than 2^32 values, and from
    /// 64-bit words beyond.
    open spec fn spec_word_bits(lo: int, hi: int) -> nat {
        if lo == usize::MIN && hi == usize::MAX {
            if usize::BITS == 64 {
                64
            } else {
                32
            }
        } else if hi - lo + 1 < 0x1_0000_0000 {
            32
        } else {
            64
        }
    }

    proof fn lemma_word_bits(lo: int, hi: int) {
        if lo == usize::MIN && hi == usize::MAX {
            if usize::BITS == 64 {
                assert(hi - lo + 1 == 0x1_0000_0000_0000_0000int);
                assert(two_to(64) == 1int * 0x1_0000_0000_0000_0000int);
                lemma_mod_multiples_basic(1int, 0x1_0000_0000_0000_0000int);
            } else {
                assert(hi - lo + 1 == 0x1_0000_0000int);
                assert(two_to(32) == 1int * 0x1_0000_0000int);
                lemma_mod_multiples_basic(1int, 0x1_0000_0000int);
            }
        }
    }

    fn range_from_rng<R: Rng, G: IntoGenerateRange<usize>>(rng: &mut R, range: G) -> (r: usize) {
        let ghost lo = range.spec_start();
        let ghost hi = range.spec_end_inclusive();
        let GenerateRange { start, end_inclusive } = range.into_generate_range();
        if start == usize::MIN && end_inclusive == usize::MAX {
            let ghost before = *rng;
            if usize::BITS == 64 {
                let g = u64::value_from_rng(rng);
                proof {
                    lemma_small_mod(g as nat, (usize::MAX + 1) as nat);
                }
                assert(spec_range_value(before, lo, hi, usize::MIN as int, usize::MAX as int, 64, 0)
                    == Some(((g as usize) as int, *rng)));
                return g as usize;
            } else {
                let g = u32::value_from_rng(rng);
                proof {
                    lemma_small_mod(g as nat, (usize::MAX + 1) as nat);
                }
                assert(spec_range_value(before, lo, hi, usize::MIN as int, usize::MAX as int, 32, 0)
                    == Some(((g as usize) as int, *rng)));
                return g as usize;
            }
        }
        let span = end_inclusive.wrapping_sub(start).wrapping_add(1);
        if span == 0 {
            return start;
        }
        let ghost before = *rng;
        if span <= 0xffff_ffff {
            proof {
                lemma_small_mod((hi - lo + 1) as nat, two_to(32) as nat);
            }
            assert((hi - lo + 1) % two_to(32) == (span as u32) as int);
            proof {
                let f0 = choose|f: nat|
                    spec_range_value(before, lo, hi, usize::MIN as int, usize::MAX as int, 32, f) is Some;
                lemma_range_value_zero_based(before, lo, hi, usize::MIN as int, usize::MAX as int, 32, f0);
            }
            let v = zero_based_u32(rng, span as u32);
            let ghost fuel = choose|fuel: nat|
                #[trigger] spec_lemire(before, (span as u32) as int, 32, fuel) == Some((v as int, *rng));
            proof {
                lemma_range_value_zero_based(before, lo, hi, usize::MIN as int, usize::MAX as int, 32, fuel);
            }
            assert(spec_range_value(before, lo, hi, usize::MIN as int, usize::MAX as int, 32, fuel) == Some(
                ((lo + v) as int, *rng),
            ));
            start.wrapping_add(v as usize)
        } else {
            proof {
                lemma_small_mod((hi - lo + 1) as nat, two_to(64) as nat);
            }
            assert((hi - lo + 1) % two_to(64) == (span as u64) as int);
            proof {
                let f0 = choose|f: nat|
                    spec_range_value(before, lo, hi, usize::MIN as int, usize::MAX as int, 64, f) is Some;
                lemma_range_value_zero_based(before, lo, hi, usize::MIN as int, usize::MAX as int, 64, f0);
            }
            let v = zero_based_u64(rng, span as u64);
            let ghost fuel = choose|fuel: nat|
                #[trigger] spec_lemire(before, (span as u64) as int, 64, fuel) == Some((v as int, *rng));
            proof {
                lemma_range_value_zero_based(before, lo, hi, usize::MIN as int, usize::MAX as int, 64, fuel);
            }
            assert(spec_range_value(before, lo, hi, usize::MIN as int, usize::MAX as int, 64, fuel) == Some(
                ((lo + v) as int, *rng),
            ));
            start.wrapping_add(v as usize)
        }
    }
}

proof fn lemma_u64_as_isize(g: u64)
    by (bit_vector)
    ensures
        usize::BITS == 64 ==> g as isize == g as i64,
        usize::BITS == 32 ==> g as isize == g as i32,
{
}

proof fn lemma_isize_as_usize(e: isize)
    by (bit_vector)
    ensures
        usize::BITS == 64 ==> e as usize == (e as i64) as u64,
        usize::BITS == 32 ==> e as usize == (e as i32) as u32,
{
}

proof fn lemma_u32_as_isize(g: u32)
    by (bit_vector)
    ensures
        usize::BITS == 32 ==> g as isize == g as i32,
{
}

impl RangeFromRng for isize {
    /// Words as wide as `isize`.
    open spec fn spec_word_bits(lo: int, hi: int) -> nat {
        if usize::BITS == 64 {
            64
        } else {
            32
        }
    }

    proof fn lemma_word_bits(lo: int, hi: int) {
        if usize::BITS == 64 {
            assert(two_to(64) == 1int * 0x1_0000_0000_0000_0000int);
            lemma_mod_multiples_basic(1int, 0x1_0000_0000_0000_0000int);
        } else {
            assert(two_to(32) == 1int * 0x1_0000_0000int);
            lemma_mod_multiples_basic(1int, 0x1_0000_0000int);
        }
    }

    fn range_from_rng<R: Rng, G: IntoGenerateRange<isize>>(rng: &mut R, range: G) -> (r: isize) {
        let ghost lo = range.spec_start();
        let ghost hi = range.spec_end_inclusive();
        let GenerateRange { start, end_inclusive } = range.into_generate_range();
        if start == isize::MIN && end_inclusive == isize::MAX {
            let ghost before = *rng;
            if usize::BITS == 64 {
                let g = u64::value_from_rng(rng);
                proof {
                    lemma_small_mod(g as nat, two_to(64) as nat);
                    lemma_u64_as_isize(g);
                    lemma_u64_as_i64(g);
                }
                assert(spec_range_value(before, lo, hi, isize::MIN as int, isize::MAX as int, 64, 0)
                    == Some(((g as isize) as int, *rng)));
                return g as isize;
            } else {
                let g = u32::value_from_rng(rng);
                proof {
                    lemma_small_mod(g as nat, two_to(32) as nat);
                    lemma_u32_as_isize(g);
                    lemma_u32_as_i32(g);
                }
                assert(spec_range_value(before, lo, hi, isize::MIN as int, isize::MAX as int, 32, 0)
                    == Some(((g as isize) as int, *rng)));
                return g as isize;
            }
        }
        let wide = end_inclusive.wrapping_sub(start).wrapping_add(1);
        proof {
            lemma_isize_as_usize(wide);
            lemma_i64_as_u64(wide as i64);
            lemma_i32_as_u32(wide as i32);
        }
        let span = wide as usize;
        if span == 0 {
            return start;
        }
        let ghost before = *rng;
        if usize::BITS == 64 {
            proof {
                lemma_small_mod((hi - lo + 1) as nat, two_to(64) as nat);
            }
            assert((hi - lo + 1) % two_to(64) == (span as u64) as int);
            proof {
                let f0 = choose|f: nat|
                    spec_range_value(before, lo, hi, isize::MIN as int, isize::MAX as int, 64, f) is Some;
                lemma_range_value_zero_based(before, lo, hi, isize::MIN as int, isize::MAX as int, 64, f0);
            }
            let v = zero_based_u64(rng, span as u64);
            let ghost fuel = choose|fuel: nat|
                #[trigger] spec_lemire(before, (span as u64) as int, 64, fuel) == Some((v as int, *rng));
            proof {
                lemma_range_value_zero_based(before, lo, hi, isize::MIN as int, isize::MAX as int, 64, fuel);
            }
            assert(spec_range_value(before, lo, hi, isize::MIN as int, isize::MAX as int, 64, fuel) == Some(
                ((lo + v) as int, *rng),
            ));
            proof {
                lemma_u64_as_isize(v);
                lemma_u64_as_i64(v);
            }
            start.wrapping_add(v as isize)
        } else {
            proof {
                lemma_small_mod((hi - lo + 1) as nat, two_to(32) as nat);
            }
            assert((hi - lo + 1) % two_to(32) == (span as u32) as int);
            proof {
                let f0 = choose|f: nat|
                    spec_range_value(before, lo, hi, isize::MIN as int, isize::MAX as int, 32, f) is Some;
                lemma_range_value_zero_based(before, lo, hi, isize::MIN as int, isize::MAX as int, 32, f0);
            }
            let v = zero_based_u32(rng, span as u32);
            let ghost fuel = choose|fuel: nat|
                #[trigger] spec_lemire(before, (span as u32) as int, 32, fuel) == Some((v as int, *rng));
            proof {
                lemma_range_value_zero_based(before, lo, hi, isize::MIN as int, isize::MAX as int, 32, fuel);
            }
            assert(spec_range_value(before, lo, hi, isize::MIN as int, isize::MAX as int, 32, fuel) == Some(
                ((lo + v) as int, *rng),
            ));
            proof {
                lemma_u32_as_isize(v);
                lemma_u32_as_i32(v);
            }
            start.wrapping_add(v as isize)
        }
    }
}

/// A value drawn from `lo..=hi` lies in `lo..=hi`.
pub proof fn lemma_range_value_bounds<R: Rng>(
    rng: R,
    lo: int,
    hi: int,
    type_min: int,
    type_max: int,
    bits: nat,
    fuel: nat,
)
    requires
        bits == 16 || bits == 32 || bits == 64 || bits == 128,
        type_min <= 0 < type_max,
        type_min <= lo <= hi <= type_max,
        bits == 128 ==> hi - lo + 1 < two_to(128),
        spec_range_value(rng, lo, hi, type_min, type_max, bits, fuel) is Some,
    ensures
        lo <= spec_range_value(rng, lo, hi, type_min, type_max, bits, fuel).unwrap().0 <= hi,
{
    if !(lo == type_min && hi == type_max) {
        let span = (hi - lo + 1) % two_to(bits);
        lemma_range_value_zero_based(rng, lo, hi, type_min, type_max, bits, fuel);
        lemma_mod_decreases((hi - lo + 1) as nat, two_to(bits) as nat);
        lemma_zero_based_bound(rng, span, bits, fuel);
    } else {
        let g = spec_word(rng, bits).0;
        lemma_mod_bound(g, type_max - type_min + 1);
    }
}

} // verus!
