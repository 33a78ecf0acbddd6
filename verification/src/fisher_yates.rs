//! The forward Fisher-Yates shuffle as a function of its draws, and the proof
//! that every arrangement comes out of exactly one sequence of draws.
use vstd::prelude::*;

use crate::integer_range::{lemma_range_value_bounds, spec_range_value, RangeFromRng};
use crate::rng::{spec_shuffle, spec_shuffle_from, swap_spec, Rng};

verus! {

/// The arrangement the forward Fisher-Yates shuffle makes of `s` from index
/// `inx` on when the element at each index `i` is exchanged with the one at
/// index `js[i]`.
pub open spec fn fisher_yates<T>(s: Seq<T>, js: Seq<int>, inx: nat) -> Seq<T>
    decreases s.len() - inx,
{
    if inx + 1 >= s.len() {
        s
    } else {
        fisher_yates(swap_spec(s, inx as int, js[inx as int]), js, inx + 1)
    }
}

/// `js` holds, for each index `i` from `inx` on below `n`, a draw between `i`
/// and `n - 1`.
pub open spec fn valid_draws(js: Seq<int>, n: nat, inx: nat) -> bool {
    &&& js.len() == n
    &&& forall|i: int| inx <= i < n ==> i <= #[trigger] js[i] < n
}

/// The indices `0..n` in order.
pub open spec fn indices(n: nat) -> Seq<int> {
    Seq::new(n, |i: int| i)
}

proof fn lemma_fisher_yates_len<T>(s: Seq<T>, js: Seq<int>, inx: nat)
    ensures
        fisher_yates(s, js, inx).len() == s.len(),
    decreases s.len() - inx,
{
    if inx + 1 < s.len() {
        lemma_fisher_yates_len(swap_spec(s, inx as int, js[inx as int]), js, inx + 1);
    }
}

/// The indices before `inx` keep their elements, and index `inx` gets the
/// element at the index drawn for it.
proof fn lemma_fisher_yates_fixes<T>(s: Seq<T>, js: Seq<int>, inx: nat)
    requires
        valid_draws(js, s.len(), inx),
    ensures
        forall|k: int| 0 <= k < inx && k < s.len() ==> #[trigger] fisher_yates(s, js, inx)[k] == s[k],
        inx < s.len() ==> fisher_yates(s, js, inx)[inx as int] == s[js[inx as int]],
    decreases s.len() - inx,
{
    if inx + 1 < s.len() {
        let c = swap_spec(s, inx as int, js[inx as int]);
        lemma_fisher_yates_fixes(c, js, inx + 1);
        assert(fisher_yates(s, js, inx) == fisher_yates(c, js, inx + 1));
        assert(fisher_yates(s, js, inx)[inx as int] == c[inx as int]);
    } else if inx < s.len() {
        assert(js[inx as int] == inx);
    }
}

/// Only the draws from `inx` on matter.
proof fn lemma_fisher_yates_draws_from<T>(s: Seq<T>, js1: Seq<int>, js2: Seq<int>, inx: nat)
    requires
        forall|i: int| inx <= i < s.len() ==> js1[i] == js2[i],
    ensures
        fisher_yates(s, js1, inx) == fisher_yates(s, js2, inx),
    decreases s.len() - inx,
{
    if inx + 1 < s.len() {
        assert(js1[inx as int] == js2[inx as int]);
        lemma_fisher_yates_draws_from(swap_spec(s, inx as int, js1[inx as int]), js1, js2, inx + 1);
    }
}

/// Shuffling commutes with mapping each element.
proof fn lemma_fisher_yates_map<A, B>(s: Seq<A>, f: spec_fn(A) -> B, js: Seq<int>, inx: nat)
    requires
        valid_draws(js, s.len(), inx),
    ensures
        fisher_yates(s.map_values(f), js, inx) == fisher_yates(s, js, inx).map_values(f),
    decreases s.len() - inx,
{
    if inx + 1 < s.len() {
        let j = js[inx as int];
        let c = swap_spec(s, inx as int, j);
        assert(swap_spec(s.map_values(f), inx as int, j) =~= c.map_values(f));
        lemma_fisher_yates_map(c, f, js, inx + 1);
    }
}

/// Exchanging two elements keeps a sequence free of duplicates.
proof fn lemma_swap_no_duplicates<T>(s: Seq<T>, i: int, j: int)
    requires
        s.no_duplicates(),
        0 <= i < s.len(),
        0 <= j < s.len(),
    ensures
        swap_spec(s, i, j).no_duplicates(),
{
    let c = swap_spec(s, i, j);
    assert forall|a: int, b: int| 0 <= a < c.len() && 0 <= b < c.len() && a != b implies c[a] != c[b] by {
        let sa = if a == j { i } else if a == i { j } else { a };
        let sb = if b == j { i } else if b == i { j } else { b };
        assert(c[a] == s[sa]);
        assert(c[b] == s[sb]);
    }
}

/// Without duplicates in `s`, the arrangement determines the draws.
proof fn lemma_fisher_yates_injective<T>(s: Seq<T>, js1: Seq<int>, js2: Seq<int>, inx: nat)
    requires
        s.no_duplicates(),
        valid_draws(js1, s.len(), inx),
        valid_draws(js2, s.len(), inx),
        fisher_yates(s, js1, inx) == fisher_yates(s, js2, inx),
    ensures
        forall|i: int| inx <= i < s.len() ==> js1[i] == js2[i],
    decreases s.len() - inx,
{
    if inx + 1 < s.len() {
        lemma_fisher_yates_fixes(s, js1, inx);
        lemma_fisher_yates_fixes(s, js2, inx);
        let j = js1[inx as int];
        assert(s[j] == s[js2[inx as int]]);
        assert(js2[inx as int] == j);
        let c = swap_spec(s, inx as int, j);
        lemma_swap_no_duplicates(s, inx as int, j);
        lemma_fisher_yates_injective(c, js1, js2, inx + 1);
    } else if inx < s.len() {
        assert(js1[inx as int] == inx);
        assert(js2[inx as int] == inx);
    }
}

/// A sequence without duplicates whose multiset of elements is that of `s`
/// has no duplicates either, and holds the same elements.
proof fn lemma_same_elements<T>(s: Seq<T>, p: Seq<T>)
    requires
        s.no_duplicates(),
        p.to_multiset() == s.to_multiset(),
    ensures
        p.no_duplicates(),
        p.len() == s.len(),
        forall|x: T| p.contains(x) <==> s.contains(x),
{
    vstd::seq_lib::to_multiset_len(s);
    vstd::seq_lib::to_multiset_len(p);
    s.lemma_multiset_has_no_duplicates();
    p.lemma_multiset_has_no_duplicates_conv();
    assert forall|x: T| p.contains(x) <==> s.contains(x) by {
        vstd::seq_lib::to_multiset_contains(p, x);
        vstd::seq_lib::to_multiset_contains(s, x);
    }
}

/// Every arrangement of `s` that keeps the elements before `inx` in place
/// comes out of some draws from `inx` on.
proof fn lemma_fisher_yates_reaches<T>(s: Seq<T>, p: Seq<T>, inx: nat) -> (js: Seq<int>)
    requires
        s.no_duplicates(),
        p.to_multiset() == s.to_multiset(),
        inx <= s.len(),
        forall|k: int| 0 <= k < inx ==> p[k] == s[k],
    ensures
        valid_draws(js, s.len(), inx),
        fisher_yates(s, js, inx) == p,
    decreases s.len() - inx,
{
    lemma_same_elements(s, p);
    let n = s.len();
    if inx + 1 >= n {
        if inx + 1 == n {
            let x = p[inx as int];
            assert(p.contains(x));
            let m = choose|m: int| 0 <= m < n && s[m] == x;
            if m < inx {
                assert(p[m] == p[inx as int]);
            }
        }
        assert(p =~= s);
        indices(n)
    } else {
        let x = p[inx as int];
        assert(p.contains(x));
        let m = choose|m: int| 0 <= m < n && s[m] == x;
        if m < inx {
            assert(p[m] == p[inx as int]);
        }
        let c = swap_spec(s, inx as int, m);
        crate::rng::lemma_swap_multiset(s, inx as int, m);
        lemma_swap_no_duplicates(s, inx as int, m);
        let rest = lemma_fisher_yates_reaches(c, p, inx + 1);
        let js = rest.update(inx as int, m);
        lemma_fisher_yates_draws_from(c, js, rest, inx + 1);
        js
    }
}

/// Shuffling `n` elements with some draws moves them as it moves the indices
/// `0..n`: the element that lands at index `i` is the one that was at the
/// index that lands there.
pub proof fn lemma_fisher_yates_moves_indices<T>(s: Seq<T>, js: Seq<int>)
    requires
        valid_draws(js, s.len(), 0),
    ensures
        fisher_yates(s, js, 0) == fisher_yates(indices(s.len()), js, 0).map_values(|k: int| s[k]),
{
    let f = |k: int| s[k];
    assert(indices(s.len()).map_values(f) =~= s);
    lemma_fisher_yates_map(indices(s.len()), f, js, 0);
}

/// Each arrangement `p` of the indices `0..n` comes out of the forward
/// Fisher-Yates shuffle for exactly one sequence of draws, the draw at each
/// index `i` being between `i` and `n - 1`. With each draw uniform over its
/// range, every arrangement is therefore equally likely.
pub proof fn lemma_shuffle_arrangements(n: nat, p: Seq<int>)
    requires
        p.to_multiset() == indices(n).to_multiset(),
    ensures
        exists|js: Seq<int>| valid_draws(js, n, 0) && fisher_yates(indices(n), js, 0) == p,
        forall|js1: Seq<int>, js2: Seq<int>|
            valid_draws(js1, n, 0) && valid_draws(js2, n, 0) && fisher_yates(indices(n), js1, 0) == p
                && fisher_yates(indices(n), js2, 0) == p ==> js1 == js2,
{
    let ids = indices(n);
    let js = lemma_fisher_yates_reaches(ids, p, 0);
    assert(valid_draws(js, n, 0) && fisher_yates(ids, js, 0) == p);
    assert forall|js1: Seq<int>, js2: Seq<int>|
        valid_draws(js1, n, 0) && valid_draws(js2, n, 0) && fisher_yates(ids, js1, 0) == p
            && fisher_yates(ids, js2, 0) == p implies js1 == js2 by {
        lemma_fisher_yates_injective(ids, js1, js2, 0);
        assert(js1 =~= js2);
    }
}

/// The shuffle that `spec_shuffle_from` describes is the forward Fisher-Yates
/// arrangement under the draws it takes, each between its index and the last.
pub proof fn lemma_shuffle_is_fisher_yates<T, R: Rng>(rng: R, s: Seq<T>, inx: nat, fuel: nat)
    requires
        s.len() <= usize::MAX,
        spec_shuffle_from(rng, s, inx, fuel) is Some,
    ensures
        exists|js: Seq<int>|
            valid_draws(js, s.len(), inx) && spec_shuffle_from(rng, s, inx, fuel).unwrap().0
                == fisher_yates(s, js, inx),
    decreases s.len() - inx,
{
    let n = s.len();
    if inx + 1 >= n {
        let js = indices(n);
        assert(valid_draws(js, n, inx) && spec_shuffle_from(rng, s, inx, fuel).unwrap().0 == fisher_yates(s, js, inx));
    } else {
        let lo = inx as int;
        let hi = n - 1;
        let bits = <usize as RangeFromRng>::spec_word_bits(lo, hi);
        let (j, next) = spec_range_value(rng, lo, hi, 0, usize::MAX as int, bits, fuel).unwrap();
        lemma_range_value_bounds(rng, lo, hi, 0, usize::MAX as int, bits, fuel);
        let c = swap_spec(s, lo, j);
        lemma_shuffle_is_fisher_yates(next, c, inx + 1, fuel);
        let rest = choose|js: Seq<int>|
            valid_draws(js, n, inx + 1) && spec_shuffle_from(next, c, inx + 1, fuel).unwrap().0
                == #[trigger] fisher_yates(c, js, inx + 1);
        let js = rest.update(lo, j);
        lemma_fisher_yates_draws_from(c, js, rest, inx + 1);
        assert(valid_draws(js, n, inx) && spec_shuffle_from(rng, s, inx, fuel).unwrap().0 == fisher_yates(s, js, inx));
    }
}

/// The draws a shuffle of `n` elements takes from `rng`, appended to `drawn`
/// (the draws for the indices before `drawn.len()`): for each index `i` below
/// `n - 1` in turn, a value of the range `i..n` drawn as `range` draws it;
/// the last index gets itself. `None` when some draw takes more than `fuel`
/// retries.
pub open spec fn shuffle_draws<R: Rng>(rng: R, n: nat, drawn: Seq<int>, fuel: nat) -> Option<(Seq<int>, R)>
    decreases n - drawn.len(),
{
    let i = drawn.len();
    if i + 1 > n {
        Some((drawn, rng))
    } else if i + 1 == n {
        Some((drawn.push(i as int), rng))
    } else {
        match spec_range_value(
            rng,
            i as int,
            n - 1,
            0,
            usize::MAX as int,
            <usize as RangeFromRng>::spec_word_bits(i as int, n - 1),
            fuel,
        ) {
            Some((j, next)) => shuffle_draws(next, n, drawn.push(j), fuel),
            None => None,
        }
    }
}

/// The draws keep those already made, and each new one lies between its
/// index and the last.
proof fn lemma_shuffle_draws_valid<R: Rng>(rng: R, n: nat, drawn: Seq<int>, fuel: nat)
    requires
        n <= usize::MAX,
        drawn.len() <= n,
        shuffle_draws(rng, n, drawn, fuel) is Some,
    ensures
        shuffle_draws(rng, n, drawn, fuel).unwrap().0.len() == n,
        forall|k: int| 0 <= k < drawn.len() ==> #[trigger] shuffle_draws(rng, n, drawn, fuel).unwrap().0[k] == drawn[k],
        forall|i: int|
            drawn.len() <= i < n ==> i <= #[trigger] shuffle_draws(rng, n, drawn, fuel).unwrap().0[i] < n,
    decreases n - drawn.len(),
{
    let i = drawn.len();
    if i + 1 < n {
        let lo = i as int;
        let hi = n - 1;
        let bits = <usize as RangeFromRng>::spec_word_bits(lo, hi);
        let (j, next) = spec_range_value(rng, lo, hi, 0, usize::MAX as int, bits, fuel).unwrap();
        lemma_range_value_bounds(rng, lo, hi, 0, usize::MAX as int, bits, fuel);
        lemma_shuffle_draws_valid(next, n, drawn.push(j), fuel);
        let js = shuffle_draws(rng, n, drawn, fuel).unwrap().0;
        assert forall|k: int| 0 <= k < drawn.len() implies #[trigger] js[k] == drawn[k] by {
            assert(js[k] == drawn.push(j)[k]);
        }
        assert(js[lo] == drawn.push(j)[lo]);
    }
}

proof fn lemma_shuffle_from_draws<T, R: Rng>(rng: R, s: Seq<T>, drawn: Seq<int>, fuel: nat)
    requires
        s.len() <= usize::MAX,
        drawn.len() <= s.len(),
    ensures
        spec_shuffle_from(rng, s, drawn.len(), fuel) == match shuffle_draws(rng, s.len(), drawn, fuel) {
            Some((js, after)) => Some((fisher_yates(s, js, drawn.len()), after)),
            None => None,
        },
    decreases s.len() - drawn.len(),
{
    let n = s.len();
    let i = drawn.len();
    if i + 1 < n {
        let lo = i as int;
        let hi = n - 1;
        let bits = <usize as RangeFromRng>::spec_word_bits(lo, hi);
        match spec_range_value(rng, lo, hi, 0, usize::MAX as int, bits, fuel) {
            Some((j, next)) => {
                let c = swap_spec(s, lo, j);
                lemma_shuffle_from_draws(next, c, drawn.push(j), fuel);
                if shuffle_draws(next, n, drawn.push(j), fuel) is Some {
                    lemma_shuffle_draws_valid(next, n, drawn.push(j), fuel);
                    let js = shuffle_draws(next, n, drawn.push(j), fuel).unwrap().0;
                    assert(js[lo] == drawn.push(j)[lo]);
                }
            },
            None => {},
        }
    }
}

/// The shuffle, arrangement and generator alike, is the forward Fisher-Yates
/// arrangement under the draws `shuffle_draws` takes from the generator: for
/// `n` elements, one draw of the range `i..n` for each index `i` below
/// `n - 1`, in order, each between its index and the last. So every slice of
/// two or more elements is shuffled, and the generator is left after those
/// draws.
pub proof fn lemma_shuffle_draws<T, R: Rng>(rng: R, s: Seq<T>, fuel: nat)
    requires
        s.len() <= usize::MAX,
    ensures
        spec_shuffle(rng, s, fuel) == match shuffle_draws(rng, s.len(), Seq::empty(), fuel) {
            Some((js, after)) => Some((fisher_yates(s, js, 0), after)),
            None => None,
        },
        shuffle_draws(rng, s.len(), Seq::empty(), fuel) is Some ==> valid_draws(
            shuffle_draws(rng, s.len(), Seq::empty(), fuel).unwrap().0,
            s.len(),
            0,
        ),
{
    lemma_shuffle_from_draws(rng, s, Seq::empty(), fuel);
    if shuffle_draws(rng, s.len(), Seq::empty(), fuel) is Some {
        lemma_shuffle_draws_valid(rng, s.len(), Seq::empty(), fuel);
    }
}

} // verus!
