//! Why the range algorithms are strictly uniform: every value they can give
//! comes from exactly as many of the possible draws as every other.
use vstd::prelude::*;
use vstd::set_lib::{set_int_range, lemma_int_range, lemma_map_size};
use vstd::arithmetic::div_mod::lemma_small_mod;
use crate::zero_based::{two_to, lemire_accepts, lemire_value, rejection_limit};
use crate::integer_range::{wrap_into, range_word_value, RangeFromRng};

verus! {

/// The draws of `bits` bits that Lemire's method keeps and turns into `v`
/// for `span` values.
pub open spec fn lemire_preimage(span: int, bits: nat, v: int) -> Set<int> {
    Set::new(
        |x: int|
            0 <= x < two_to(bits) && lemire_accepts(x, span, bits) && lemire_value(x, span, bits) == v,
    )
}

/// The u128 draws that rejection sampling keeps and turns into `v` for
/// `span` values.
pub open spec fn rejection_preimage(span: int, v: int) -> Set<int> {
    Set::new(|x: int| 0 <= x < two_to(128) && x <= rejection_limit(span) && x % span == v)
}

/// `y * s` reaches `c` exactly when `y` reaches `c / s` rounded up.
proof fn lemma_ceil_div(y: int, s: int, c: int)
    requires
        s > 0,
    ensures
        (y * s >= c) <==> (y >= (c + s - 1) / s),
{
    let a = (c + s - 1) / s;
    let r = (c + s - 1) % s;
    assert(c + s - 1 == s * a + r && 0 <= r < s) by (nonlinear_arith)
        requires
            s > 0,
            a == (c + s - 1) / s,
            r == (c + s - 1) % s,
    ;
    if y >= a {
        assert(y * s >= a * s) by (nonlinear_arith)
            requires
                y >= a,
                s > 0,
        ;
        assert(y * s >= c) by (nonlinear_arith)
            requires
                y * s >= a * s,
                c + s - 1 == s * a + r,
                r < s,
        ;
    } else {
        assert(y * s <= (a - 1) * s) by (nonlinear_arith)
            requires
                y <= a - 1,
                s > 0,
        ;
        assert(y * s < c) by (nonlinear_arith)
            requires
                y * s <= (a - 1) * s,
                c + s - 1 == s * a + r,
                0 <= r,
        ;
    }
}

/// The high word of `p` is `v` and its low word reaches `t` exactly when
/// `p` lies in `[v * m + t, (v + 1) * m)`.
proof fn lemma_high_low_words(p: int, m: int, v: int, t: int)
    requires
        m > 0,
        0 <= t < m,
    ensures
        (p / m == v && p % m >= t) <==> (v * m + t <= p < (v + 1) * m),
{
    let d = p / m;
    let r = p % m;
    assert(p == m * d + r && 0 <= r < m) by (nonlinear_arith)
        requires
            m > 0,
            d == p / m,
            r == p % m,
    ;
    if v * m + t <= p < (v + 1) * m {
        assert(d == v) by (nonlinear_arith)
            requires
                p == m * d + r,
                0 <= r < m,
                v * m + t <= p < (v + 1) * m,
                0 <= t,
                m > 0,
        ;
        assert(r >= t) by (nonlinear_arith)
            requires
                p == m * d + r,
                d == v,
                p >= v * m + t,
        ;
    }
    if d == v && r >= t {
        assert(v * m + t <= p < (v + 1) * m) by (nonlinear_arith)
            requires
                p == m * d + r,
                d == v,
                t <= r < m,
        ;
    }
}

/// Lemire's method keeps a draw `x` and turns it into `v` exactly when `x`
/// lies in a run of `2^bits / span` consecutive draws that depends on `v`.
pub proof fn lemma_lemire_preimage_run(span: int, bits: nat, v: int, x: int)
    requires
        bits == 16 || bits == 32 || bits == 64,
        0 < span < two_to(bits),
        0 <= v < span,
        0 <= x < two_to(bits),
    ensures
        (lemire_accepts(x, span, bits) && lemire_value(x, span, bits) == v) <==> (
        lemire_run_start(span, bits, v) <= x < lemire_run_start(span, bits, v) + two_to(bits) / span),
{
    let m = two_to(bits);
    let s = span;
    let t = m % s;
    let q = m / s;
    assert(m == q * s + t && 0 <= t < s && q >= 1) by (nonlinear_arith)
        requires
            0 < s < m,
            t == m % s,
            q == m / s,
    ;
    assert((m - s) % s == t) by (nonlinear_arith)
        requires
            m == q * s + t,
            0 <= t < s,
            q >= 1,
    ;
    let c = v * m + t;
    let a = (c + s - 1) / s;
    assert(c >= 0) by (nonlinear_arith)
        requires
            c == v * m + t,
            v >= 0,
            m > 0,
            t >= 0,
    ;
    assert((v + 1) * m == c + q * s) by (nonlinear_arith)
        requires
            c == v * m + t,
            m == q * s + t,
    ;
    lemma_high_low_words(x * s, m, v, t);
    lemma_ceil_div(x, s, c);
    lemma_ceil_div(x - q, s, c);
    assert((x - q) * s == x * s - q * s) by (nonlinear_arith);
}

/// The first draw of the run that Lemire's method turns into `v`.
pub open spec fn lemire_run_start(span: int, bits: nat, v: int) -> int {
    (v * two_to(bits) + two_to(bits) % span + span - 1) / span
}

/// Lemire's method is strictly uniform: for every value below `span`,
/// exactly `2^bits / span` of the `2^bits` possible draws are kept and turned
/// into it.
pub proof fn lemma_lemire_uniform(span: int, bits: nat, v: int)
    requires
        bits == 16 || bits == 32 || bits == 64,
        0 < span < two_to(bits),
        0 <= v < span,
    ensures
        lemire_preimage(span, bits, v).finite(),
        lemire_preimage(span, bits, v).len() == two_to(bits) / span,
{
    let m = two_to(bits);
    let a = lemire_run_start(span, bits, v);
    let q = m / span;
    let t = m % span;
    let c = v * m + t;
    assert(m == q * span + t && 0 <= t < span && q >= 1) by (nonlinear_arith)
        requires
            0 < span < m,
            t == m % span,
            q == m / span,
    ;
    assert(c >= 0) by (nonlinear_arith)
        requires
            c == v * m + t,
            v >= 0,
            m > 0,
            t >= 0,
    ;
    assert(a >= 0) by (nonlinear_arith)
        requires
            c >= 0,
            span > 0,
            a == (c + span - 1) / span,
    ;
    assert forall|x: int| #[trigger] set_int_range(a, a + q).contains(x) implies x < m by {
        lemma_ceil_div(x - q, span, c);
        assert((x - q) * span == x * span - q * span) by (nonlinear_arith);
        assert((v + 1) * m == c + q * span) by (nonlinear_arith)
            requires
                c == v * m + t,
                m == q * span + t,
        ;
        assert(x * span < (v + 1) * m);
        assert((v + 1) * m <= span * m) by (nonlinear_arith)
            requires
                v + 1 <= span,
                m > 0,
        ;
        assert(x < m) by (nonlinear_arith)
            requires
                x * span < span * m,
                span > 0,
        ;
    }
    assert forall|x: int| #[trigger] lemire_preimage(span, bits, v).contains(x) <==> set_int_range(a, a + q).contains(x) by {
        if 0 <= x < m {
            lemma_lemire_preimage_run(span, bits, v, x);
        }
    }
    assert(lemire_preimage(span, bits, v) =~= set_int_range(a, a + q));
    lemma_int_range(a, a + q);
}

/// Rejection sampling is strictly uniform: for every value below `span`,
/// exactly `2^128 / span` of the `2^128` possible draws are kept and turned
/// into it.
pub proof fn lemma_rejection_uniform(span: int, v: int)
    requires
        0 < span < two_to(128),
        0 <= v < span,
    ensures
        rejection_preimage(span, v).finite(),
        rejection_preimage(span, v).len() == two_to(128) / span,
{
    let m = two_to(128);
    let q = m / span;
    let t = m % span;
    assert(m == q * span + t && 0 <= t < span && q >= 1) by (nonlinear_arith)
        requires
            0 < span < m,
            t == m % span,
            q == m / span,
    ;
    assert((m - span) % span == t) by (nonlinear_arith)
        requires
            m == q * span + t,
            0 <= t < span,
            q >= 1,
    ;
    let f = |k: int| v + k * span;
    let run = set_int_range(0, q);
    assert forall|x: int| #[trigger] rejection_preimage(span, v).contains(x) implies run.map(f).contains(x) by {
        let k = x / span;
        assert(x == k * span + v && k >= 0) by (nonlinear_arith)
            requires
                0 <= x,
                span > 0,
                k == x / span,
                x % span == v,
        ;
        assert(k < q) by (nonlinear_arith)
            requires
                x == k * span + v,
                0 <= v,
                x <= m - 1 - t,
                m == q * span + t,
                span > 0,
        ;
        assert(run.contains(k));
        assert(f(k) == x);
    }
    assert forall|x: int| #[trigger] run.map(f).contains(x) implies rejection_preimage(span, v).contains(x) by {
        let k = choose|k: int| run.contains(k) && f(k) == x;
        assert(0 <= x && x <= m - 1 - t) by (nonlinear_arith)
            requires
                x == v + k * span,
                0 <= k < q,
                0 <= v < span,
                m == q * span + t,
        ;
        assert(x % span == v) by (nonlinear_arith)
            requires
                x == v + k * span,
                0 <= k,
                0 <= v < span,
        ;
    }
    assert(rejection_preimage(span, v) =~= run.map(f));
    lemma_int_range(0, q);
    assert forall|k1: int, k2: int| run.contains(k1) && run.contains(k2) && #[trigger] f(k1) == #[trigger] f(k2) implies k1 == k2 by {
        assert(k1 == k2) by (nonlinear_arith)
            requires
                v + k1 * span == v + k2 * span,
                span > 0,
        ;
    }
    lemma_map_size(run, run.map(f), f);
}

/// The draws that, cast into a type whose values run from `type_min` to
/// `type_max`, give `w`.
pub open spec fn cast_preimage(type_min: int, type_max: int, bits: nat, w: int) -> Set<int> {
    Set::new(|g: int| 0 <= g < two_to(bits) && wrap_into(g, type_min, type_max) == w)
}

/// Drawing a whole type is strictly uniform when the type has no more values
/// than the draw: every value comes from exactly `2^bits / size` draws.
pub proof fn lemma_full_range_uniform(type_min: int, type_max: int, bits: nat, w: int)
    requires
        bits == 16 || bits == 32 || bits == 64 || bits == 128,
        type_min <= 0 < type_max,
        type_max - type_min + 1 <= two_to(bits),
        two_to(bits) % (type_max - type_min + 1) == 0,
        type_min <= w <= type_max,
    ensures
        cast_preimage(type_min, type_max, bits, w).finite(),
        cast_preimage(type_min, type_max, bits, w).len() == two_to(bits) / (type_max - type_min + 1),
{
    let m = two_to(bits);
    let size = type_max - type_min + 1;
    let q = m / size;
    let base = if w >= 0 {
        w
    } else {
        w + size
    };
    assert(m == q * size && q >= 1) by (nonlinear_arith)
        requires
            0 < size <= m,
            m % size == 0,
            q == m / size,
    ;
    let f = |k: int| base + k * size;
    let run = set_int_range(0, q);
    assert forall|g: int| #[trigger] cast_preimage(type_min, type_max, bits, w).contains(g) implies run.map(f).contains(g) by {
        let k = g / size;
        let t = g % size;
        assert(g == k * size + t && 0 <= t < size && k >= 0) by (nonlinear_arith)
            requires
                0 <= g,
                size > 0,
                k == g / size,
                t == g % size,
        ;
        assert(t == base);
        assert(k < q) by (nonlinear_arith)
            requires
                g == k * size + t,
                0 <= t,
                g < m,
                m == q * size,
                size > 0,
        ;
        assert(run.contains(k));
        assert(f(k) == g);
    }
    assert forall|g: int| #[trigger] run.map(f).contains(g) implies cast_preimage(type_min, type_max, bits, w).contains(g) by {
        let k = choose|k: int| run.contains(k) && f(k) == g;
        assert(0 <= g < m) by (nonlinear_arith)
            requires
                g == base + k * size,
                0 <= k < q,
                0 <= base < size,
                m == q * size,
        ;
        assert(g % size == base) by (nonlinear_arith)
            requires
                g == base + k * size,
                0 <= k,
                0 <= base < size,
        ;
    }
    assert(cast_preimage(type_min, type_max, bits, w) =~= run.map(f));
    lemma_int_range(0, q);
    assert forall|k1: int, k2: int| run.contains(k1) && run.contains(k2) && #[trigger] f(k1) == #[trigger] f(k2) implies k1 == k2 by {
        assert(k1 == k2) by (nonlinear_arith)
            requires
                base + k1 * size == base + k2 * size,
                size > 0,
        ;
    }
    lemma_map_size(run, run.map(f), f);
}

/// The words of `bits` bits that drawing from `lo..=hi` keeps and turns into `w`.
pub open spec fn range_preimage(lo: int, hi: int, type_min: int, type_max: int, bits: nat, w: int) -> Set<
    int,
> {
    Set::new(
        |g: int|
            0 <= g < two_to(bits) && range_word_value(g, lo, hi, type_min, type_max, bits) == Some(w),
    )
}

/// Drawing from a range is strictly uniform: every value of `lo..=hi` comes
/// from exactly `2^bits / (hi - lo + 1)` of the `2^bits` possible words. This
/// holds when the range has fewer values than a word (and, for the whole
/// type, when their number divides `2^bits`).
pub proof fn lemma_range_uniform(lo: int, hi: int, type_min: int, type_max: int, bits: nat, w: int)
    requires
        bits == 16 || bits == 32 || bits == 64 || bits == 128,
        type_min <= 0 < type_max,
        type_min <= lo <= w <= hi <= type_max,
        lo == type_min && hi == type_max ==> hi - lo + 1 <= two_to(bits) && two_to(bits) % (hi - lo
            + 1) == 0,
        !(lo == type_min && hi == type_max) ==> hi - lo + 1 < two_to(bits),
    ensures
        range_preimage(lo, hi, type_min, type_max, bits, w).finite(),
        range_preimage(lo, hi, type_min, type_max, bits, w).len() == two_to(bits) / (hi - lo + 1),
{
    if lo == type_min && hi == type_max {
        assert(range_preimage(lo, hi, type_min, type_max, bits, w) =~= cast_preimage(
            type_min,
            type_max,
            bits,
            w,
        ));
        lemma_full_range_uniform(type_min, type_max, bits, w);
    } else {
        let span = hi - lo + 1;
        lemma_small_mod(span as nat, two_to(bits) as nat);
        if bits == 128 {
            assert(range_preimage(lo, hi, type_min, type_max, bits, w) =~= rejection_preimage(
                span,
                w - lo,
            ));
            lemma_rejection_uniform(span, w - lo);
        } else {
            assert(range_preimage(lo, hi, type_min, type_max, bits, w) =~= lemire_preimage(
                span,
                bits,
                w - lo,
            ));
            lemma_lemire_uniform(span, bits, w - lo);
        }
    }
}

/// Every integer type's ranges are strictly uniform: each value of
/// `lo..=hi` comes from exactly `2^bits / (hi - lo + 1)` of the `2^bits`
/// words that `range_from_rng` draws for that range.
pub proof fn lemma_range_from_rng_uniform<T: RangeFromRng>(lo: int, hi: int, w: int)
    requires
        T::spec_min() <= lo <= w <= hi <= T::spec_max(),
    ensures
        range_preimage(lo, hi, T::spec_min(), T::spec_max(), T::spec_word_bits(lo, hi), w).finite(),
        range_preimage(lo, hi, T::spec_min(), T::spec_max(), T::spec_word_bits(lo, hi), w).len()
            == two_to(T::spec_word_bits(lo, hi)) / (hi - lo + 1),
{
    T::lemma_word_bits(lo, hi);
    lemma_range_uniform(lo, hi, T::spec_min(), T::spec_max(), T::spec_word_bits(lo, hi), w);
}

} // verus!
