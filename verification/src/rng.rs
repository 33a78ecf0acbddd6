//! The generator trait and the algorithms built on it: single values,
//! uniformly distributed values in a range, fills and shuffles.
use vstd::prelude::*;
use vstd::arithmetic::power2::pow2;
use crate::ranges::IntoGenerateRange;
use crate::integer_range::{
    RangeFromRng, spec_range_value, lemma_range_value_fuel, lemma_range_value_bounds,
};

verus! {

/// A pseudo-random number generator: the trait all generators implement.
///
/// A generator is a deterministic state machine: `spec_next_u32` and
/// `spec_next_u64` say what the next call of `random_u32` or `random_u64`
/// returns and what state it leaves behind. Everything else the library
/// draws is stated in terms of these two functions, which every generator
/// defines.
pub trait Rng: Sized {
    /// The value the next `random_u32` returns, and the generator after it.
    spec fn spec_next_u32(&self) -> (u32, Self);

    /// The value the next `random_u64` returns, and the generator after it.
    spec fn spec_next_u64(&self) -> (u64, Self);

    /// Generates a random u32.
    fn random_u32(&mut self) -> (r: u32)
        ensures
            (r, *final(self)) == old(self).spec_next_u32(),
    ;

    /// Generates a random u64.
    fn random_u64(&mut self) -> (r: u64)
        ensures
            (r, *final(self)) == old(self).spec_next_u64(),
    ;
}

/// The values drawn by one call of `random_u32` (width 32) or `random_u64`
/// (width 64) for each entry of `widths`, in order, and the generator after
/// them.
pub open spec fn spec_draws<R: Rng>(rng: R, widths: Seq<nat>) -> (Seq<int>, R)
    decreases widths.len(),
{
    if widths.len() == 0 {
        (Seq::empty(), rng)
    } else {
        let (x, next) = spec_draw(rng, widths[0]);
        let (rest, last) = spec_draws(next, widths.drop_first());
        (seq![x] + rest, last)
    }
}

/// A single draw of `random_u32` or `random_u64`.
pub open spec fn spec_draw<R: Rng>(rng: R, width: nat) -> (int, R) {
    if width == 64 {
        let (v, n) = rng.spec_next_u64();
        (v as int, n)
    } else {
        let (v, n) = rng.spec_next_u32();
        (v as int, n)
    }
}

proof fn lemma_draws_one<R: Rng>(rng: R, width: nat)
    ensures
        spec_draws(rng, seq![width]) == (seq![spec_draw(rng, width).0], spec_draw(rng, width).1),
{
    assert(seq![width].drop_first() =~= Seq::<nat>::empty());
    reveal_with_fuel(spec_draws, 2);
    assert(seq![spec_draw(rng, width).0] + Seq::<int>::empty() =~= seq![spec_draw(rng, width).0]);
}

proof fn lemma_draws_two<R: Rng>(rng: R, w1: nat, w2: nat)
    ensures
        spec_draws(rng, seq![w1, w2]) == (
            seq![spec_draw(rng, w1).0, spec_draw(spec_draw(rng, w1).1, w2).0],
            spec_draw(spec_draw(rng, w1).1, w2).1,
        ),
{
    assert(seq![w1, w2].drop_first() =~= seq![w2]);
    lemma_draws_one(spec_draw(rng, w1).1, w2);
    reveal_with_fuel(spec_draws, 2);
    assert(seq![spec_draw(rng, w1).0] + seq![spec_draw(spec_draw(rng, w1).1, w2).0] =~= seq![
        spec_draw(rng, w1).0,
        spec_draw(spec_draw(rng, w1).1, w2).0,
    ]);
}

/// The value of type `T` drawn from `rng`, and the generator after the draws.
pub open spec fn spec_value<T: ValueFromRng, R: Rng>(rng: R) -> (T, R) {
    let (draws, next) = spec_draws(rng, T::spec_draw_widths());
    (T::spec_from_draws(draws), next)
}

/// A type whose values can be drawn from a generator.
pub trait ValueFromRng: Sized {
    /// The draws a value takes, in order: 32 for `random_u32`, 64 for
    /// `random_u64`.
    spec fn spec_draw_widths() -> Seq<nat>;

    /// The value made of those draws.
    spec fn spec_from_draws(draws: Seq<int>) -> Self;

    fn value_from_rng<R: Rng>(rng: &mut R) -> (r: Self)
        ensures
            r == Self::spec_from_draws(spec_draws(*old(rng), Self::spec_draw_widths()).0),
            *final(rng) == spec_draws(*old(rng), Self::spec_draw_widths()).1,
    ;
}

/// The lowest bit of a u32 draw.
impl ValueFromRng for bool {
    open spec fn spec_draw_widths() -> Seq<nat> {
        seq![32]
    }

    open spec fn spec_from_draws(draws: Seq<int>) -> bool {
        draws[0] % 2 == 1
    }

    fn value_from_rng<R: Rng>(rng: &mut R) -> (r: bool) {
        proof {
            lemma_draws_one(*rng, 32);
        }
        let x = rng.random_u32();
        assert((x & 1 == 1) == (x % 2 == 1)) by (bit_vector);
        x & 1 == 1
    }
}

/// The low 8 bits of a u32 draw.
impl ValueFromRng for u8 {
    open spec fn spec_draw_widths() -> Seq<nat> {
        seq![32]
    }

    open spec fn spec_from_draws(draws: Seq<int>) -> u8 {
        draws[0] as u8
    }

    fn value_from_rng<R: Rng>(rng: &mut R) -> (r: u8) {
        proof {
            lemma_draws_one(*rng, 32);
        }
        rng.random_u32() as u8
    }
}

/// The low 16 bits of a u32 draw.
impl ValueFromRng for u16 {
    open spec fn spec_draw_widths() -> Seq<nat> {
        seq![32]
    }

    open spec fn spec_from_draws(draws: Seq<int>) -> u16 {
        draws[0] as u16
    }

    fn value_from_rng<R: Rng>(rng: &mut R) -> (r: u16) {
        proof {
            lemma_draws_one(*rng, 32);
        }
        rng.random_u32() as u16
    }
}

/// A u32 draw.
impl ValueFromRng for u32 {
    open spec fn spec_draw_widths() -> Seq<nat> {
        seq![32]
    }

    open spec fn spec_from_draws(draws: Seq<int>) -> u32 {
        draws[0] as u32
    }

    fn value_from_rng<R: Rng>(rng: &mut R) -> (r: u32) {
        proof {
            lemma_draws_one(*rng, 32);
        }
        rng.random_u32()
    }
}

/// A u64 draw.
impl ValueFromRng for u64 {
    open spec fn spec_draw_widths() -> Seq<nat> {
        seq![64]
    }

    open spec fn spec_from_draws(draws: Seq<int>) -> u64 {
        draws[0] as u64
    }

    fn value_from_rng<R: Rng>(rng: &mut R) -> (r: u64) {
        proof {
            lemma_draws_one(*rng, 64);
        }
        rng.random_u64()
    }
}

/// Two u64 draws, the first one giving the high half.
impl ValueFromRng for u128 {
    open spec fn spec_draw_widths() -> Seq<nat> {
        seq![64, 64]
    }

    open spec fn spec_from_draws(draws: Seq<int>) -> u128 {
        (draws[0] * 0x1_0000_0000_0000_0000 + draws[1]) as u128
    }

    fn value_from_rng<R: Rng>(rng: &mut R) -> (r: u128) {
        proof {
            lemma_draws_two(*rng, 64, 64);
        }
        let high = rng.random_u64();
        let low = rng.random_u64();
        let r = (u128::from(high) << 64) | u128::from(low);
        assert(((high as u128) << 64) | (low as u128) == high as int * 0x1_0000_0000_0000_0000
            + low as int) by (bit_vector);
        r
    }
}

/// A draw as wide as `usize`: a u64 draw on 64-bit targets, a u32 draw on
/// 32-bit ones.
impl ValueFromRng for usize {
    open spec fn spec_draw_widths() -> Seq<nat> {
        if usize::BITS == 64 {
            seq![64]
        } else {
            seq![32]
        }
    }

    open spec fn spec_from_draws(draws: Seq<int>) -> usize {
        draws[0] as usize
    }

    fn value_from_rng<R: Rng>(rng: &mut R) -> (r: usize) {
        if usize::BITS == 64 {
            proof {
                lemma_draws_one(*rng, 64);
            }
            rng.random_u64() as usize
        } else {
            proof {
                lemma_draws_one(*rng, 32);
            }
            rng.random_u32() as usize
        }
    }
}

/// `n` values of type `T` drawn one after another, and the generator after them.
pub open spec fn spec_values<T: ValueFromRng, R: Rng>(rng: R, n: nat) -> (Seq<T>, R)
    decreases n,
{
    if n == 0 {
        (Seq::empty(), rng)
    } else {
        let (prefix, mid) = spec_values::<T, R>(rng, (n - 1) as nat);
        let (v, next) = spec_value::<T, R>(mid);
        (prefix.push(v), next)
    }
}

/// `n` values drawn one after another are `n` values.
pub proof fn lemma_values_len<T: ValueFromRng, R: Rng>(rng: R, n: nat)
    ensures
        spec_values::<T, R>(rng, n).0.len() == n,
    decreases n,
{
    if n > 0 {
        lemma_values_len::<T, R>(rng, (n - 1) as nat);
    }
}

/// Of `k` values drawn one after another, the first `i` are the `i` values
/// drawn first, and value `i` is the value that a single draw gives from the
/// generator those leave: drawing values one by one, `k` times, gives the
/// same values and the same generator as drawing `k` at once.
pub proof fn lemma_values_prefix<T: ValueFromRng, R: Rng>(rng: R, i: nat, k: nat)
    requires
        i < k,
    ensures
        spec_values::<T, R>(rng, k).0.take(i as int) == spec_values::<T, R>(rng, i).0,
        spec_values::<T, R>(rng, k).0[i as int] == spec_value::<T, R>(spec_values::<T, R>(rng, i).1).0,
        spec_values::<T, R>(rng, (i + 1) as nat).1 == spec_value::<T, R>(spec_values::<T, R>(rng, i).1).1,
    decreases k,
{
    lemma_values_len::<T, R>(rng, i);
    if i + 1 < k {
        lemma_values_prefix::<T, R>(rng, i, (k - 1) as nat);
        lemma_values_len::<T, R>(rng, (k - 1) as nat);
        let prefix = spec_values::<T, R>(rng, (k - 1) as nat).0;
        let v = spec_value::<T, R>(spec_values::<T, R>(rng, (k - 1) as nat).1).0;
        assert(prefix.push(v).take(i as int) =~= prefix.take(i as int));
    } else {
        assert(spec_values::<T, R>(rng, i).0.push(
            spec_value::<T, R>(spec_values::<T, R>(rng, i).1).0,
        ).take(i as int) =~= spec_values::<T, R>(rng, i).0);
    }
}

/// Writes the first `count` little-endian bytes of `x` into `destination`
/// from index `at` on, leaving the bytes before `at` as they were.
pub(crate) fn write_le_bytes(destination: &mut [u8], at: usize, x: u64, count: usize)
    requires
        count <= 8,
        at + count <= old(destination)@.len(),
    ensures
        final(destination)@.len() == old(destination)@.len(),
        final(destination)@.take(at + count) == old(destination)@.take(at as int) + le_bytes(x).take(
            count as int,
        ),
{
    let ghost before = destination@;
    let mut k: usize = 0;
    while k < count
        invariant
            k <= count <= 8,
            at + count <= destination.len(),
            destination@.len() == before.len(),
            destination@.take(at as int) == before.take(at as int),
            forall|m: int| 0 <= m < k ==> destination@[at + m] == #[trigger] le_byte(x, m),
        decreases count - k,
    {
        destination[at + k] = (x >> (8 * k as u64)) as u8;
        k = k + 1;
    }
    assert(destination@.take(at + count) =~= before.take(at as int) + le_bytes(x).take(count as int));
}

/// Byte `k` (0 for the lowest) of `x` in little-endian order.
pub open spec fn le_byte(x: u64, k: int) -> u8 {
    (x >> (8 * k) as u64) as u8
}

/// The eight bytes of `x` in little-endian order.
pub open spec fn le_bytes(x: u64) -> Seq<u8> {
    Seq::new(8, |k: int| le_byte(x, k))
}

/// The `len` bytes `fill_u8` writes: the little-endian bytes of one u64 draw
/// after another, the last one cut short to what is left.
pub open spec fn spec_fill_bytes<R: Rng>(rng: R, len: nat) -> (Seq<u8>, R)
    decreases len,
{
    if len == 0 {
        (Seq::empty(), rng)
    } else {
        let (x, next) = rng.spec_next_u64();
        if len <= 8 {
            (le_bytes(x).take(len as int), next)
        } else {
            let (rest, last) = spec_fill_bytes(next, (len - 8) as nat);
            (le_bytes(x) + rest, last)
        }
    }
}

/// `s` with the elements at `i` and `j` exchanged.
pub open spec fn swap_spec<T>(s: Seq<T>, i: int, j: int) -> Seq<T> {
    Seq::new(
        s.len(),
        |k: int|
            if k == j {
                s[i]
            } else if k == i {
                s[j]
            } else {
                s[k]
            },
    )
}

/// The forward Fisher-Yates shuffle of `s` from index `inx` on: the element at
/// each index in turn is exchanged with one drawn uniformly from it and the
/// indices after it. `None` when some draw takes more than `fuel` retries.
pub open spec fn spec_shuffle_from<T, R: Rng>(rng: R, s: Seq<T>, inx: nat, fuel: nat) -> Option<(Seq<T>, R)>
    decreases s.len() - inx,
{
    if inx + 1 >= s.len() {
        Some((s, rng))
    } else {
        match spec_range_value(
            rng,
            inx as int,
            s.len() - 1,
            0,
            usize::MAX as int,
            <usize as RangeFromRng>::spec_word_bits(inx as int, s.len() - 1),
            fuel,
        ) {
            Some((j, next)) => spec_shuffle_from(next, swap_spec(s, inx as int, j), inx + 1, fuel),
            None => None,
        }
    }
}

/// The forward Fisher-Yates shuffle of `s`.
pub open spec fn spec_shuffle<T, R: Rng>(rng: R, s: Seq<T>, fuel: nat) -> Option<(Seq<T>, R)> {
    spec_shuffle_from(rng, s, 0, fuel)
}

/// What a single random value is, in terms of the generator's own draws: a
/// `bool` is whether the next u32 is odd (so half of all u32 draws give
/// `true`); `u8` and `u16` are the next u32 taken modulo 2^8 and 2^16; `u32`
/// and `u64` are the next draw of their width; a `u128` is the next u64 times
/// 2^64 plus the u64 after it. Each leaves the generator after those draws.
pub proof fn lemma_random_values<R: Rng>(rng: R)
    ensures
        spec_value::<bool, R>(rng) == (rng.spec_next_u32().0 % 2 == 1, rng.spec_next_u32().1),
        spec_value::<u8, R>(rng).0 as int == rng.spec_next_u32().0 % 0x100,
        spec_value::<u8, R>(rng).1 == rng.spec_next_u32().1,
        spec_value::<u16, R>(rng).0 as int == rng.spec_next_u32().0 % 0x1_0000,
        spec_value::<u16, R>(rng).1 == rng.spec_next_u32().1,
        spec_value::<u32, R>(rng) == rng.spec_next_u32(),
        spec_value::<u64, R>(rng) == rng.spec_next_u64(),
        spec_value::<u128, R>(rng).0 as int == rng.spec_next_u64().0 * 0x1_0000_0000_0000_0000
            + rng.spec_next_u64().1.spec_next_u64().0,
        spec_value::<u128, R>(rng).1 == rng.spec_next_u64().1.spec_next_u64().1,
        usize::BITS == 64 ==> spec_value::<usize, R>(rng).0 as int == rng.spec_next_u64().0
            && spec_value::<usize, R>(rng).1 == rng.spec_next_u64().1,
        usize::BITS == 32 ==> spec_value::<usize, R>(rng).0 as int == rng.spec_next_u32().0
            && spec_value::<usize, R>(rng).1 == rng.spec_next_u32().1,
{
    lemma_draws_one(rng, 32);
    lemma_draws_one(rng, 64);
    lemma_draws_two(rng, 64, 64);
    let x = rng.spec_next_u32().0;
    assert(x as u8 as int == x % 0x100) by (bit_vector);
    assert(x as u16 as int == x % 0x1_0000) by (bit_vector);
    let h = rng.spec_next_u64().0;
    let l = rng.spec_next_u64().1.spec_next_u64().0;
    assert((h as int * 0x1_0000_0000_0000_0000 + l as int) as u128 as int == h as int * 0x1_0000_0000_0000_0000
        + l as int) by (bit_vector);
    if usize::BITS == 64 {
        assert(h as usize as int == h as int) by (bit_vector)
            requires usize::BITS == 64;
    } else {
        assert(x as usize as int == x as int) by (bit_vector);
    }
}

/// The bytes `fill_u8` writes are the little-endian bytes of successive u64
/// draws, one draw for each eight bytes or part of eight: byte `k` is byte
/// `k % 8` (counting from the lowest) of draw `k / 8`, and the generator ends
/// after those draws.
pub proof fn lemma_fill_bytes_are_u64_draws<R: Rng>(rng: R, len: nat)
    ensures
        spec_fill_bytes(rng, len).0.len() == len,
        spec_fill_bytes(rng, len).1 == spec_draws(rng, Seq::new((len + 7) as nat / 8, |i: int| 64nat)).1,
        forall|k: int|
            0 <= k < len ==> #[trigger] spec_fill_bytes(rng, len).0[k] as int == (spec_draws(
                rng,
                Seq::new((len + 7) as nat / 8, |i: int| 64nat),
            ).0[k / 8] / pow2((8 * (k % 8)) as nat) as int) % 0x100,
    decreases len,
{
    let m = (len + 7) as nat / 8;
    let widths = Seq::new(m, |i: int| 64nat);
    if len > 0 {
        let (x, next) = rng.spec_next_u64();
        let rest_widths = Seq::new((m - 1) as nat, |i: int| 64nat);
        assert(widths.drop_first() =~= rest_widths);
        assert(spec_draws(rng, widths).0 == seq![x as int] + spec_draws(next, rest_widths).0);
        assert(spec_draws(rng, widths).1 == spec_draws(next, rest_widths).1);
        if len <= 8 {
            assert(rest_widths =~= Seq::<nat>::empty());
            assert forall|k: int| 0 <= k < len implies #[trigger] spec_fill_bytes(rng, len).0[k] as int == (
            spec_draws(rng, widths).0[k / 8] / pow2((8 * (k % 8)) as nat) as int) % 0x100 by {
                lemma_le_byte(x, k);
            }
        } else {
            lemma_fill_bytes_are_u64_draws(next, (len - 8) as nat);
            assert(((len - 8) + 7) as nat / 8 == m - 1);
            let rest = spec_fill_bytes(next, (len - 8) as nat).0;
            let words = spec_draws(next, rest_widths).0;
            lemma_draws_len(next, rest_widths);
            assert forall|k: int| 0 <= k < len implies #[trigger] spec_fill_bytes(rng, len).0[k] as int == (
            spec_draws(rng, widths).0[k / 8] / pow2((8 * (k % 8)) as nat) as int) % 0x100 by {
                if k < 8 {
                    lemma_le_byte(x, k);
                } else {
                    assert(spec_fill_bytes(rng, len).0[k] == rest[k - 8]);
                    assert((k - 8) / 8 == k / 8 - 1);
                    assert((k - 8) % 8 == k % 8);
                    assert(spec_draws(rng, widths).0[k / 8] == words[(k - 8) / 8]);
                }
            }
        }
    }
}

/// One value is drawn for each width.
proof fn lemma_draws_len<R: Rng>(rng: R, widths: Seq<nat>)
    ensures
        spec_draws(rng, widths).0.len() == widths.len(),
    decreases widths.len(),
{
    if widths.len() > 0 {
        lemma_draws_len(spec_draw(rng, widths[0]).1, widths.drop_first());
    }
}

/// Byte `k` of `x`, counting from the lowest, as arithmetic.
proof fn lemma_le_byte(x: u64, k: int)
    requires
        0 <= k < 8,
    ensures
        le_byte(x, k) as int == (x as int / pow2((8 * k) as nat) as int) % 0x100,
{
    vstd::arithmetic::power2::lemma2_to64();
    vstd::arithmetic::power2::lemma2_to64_rest();
    if k == 0 {
        assert(pow2((8 * k) as nat) == 0x1);
        assert(le_byte(x, k) == (x >> 0u64) as u8);
        assert((x >> 0u64) as u8 as int == (x as int / 0x1) % 0x100) by (bit_vector);
    } else if k == 1 {
        assert(pow2((8 * k) as nat) == 0x100);
        assert(le_byte(x, k) == (x >> 8u64) as u8);
        assert((x >> 8u64) as u8 as int == (x as int / 0x100) % 0x100) by (bit_vector);
    } else if k == 2 {
        assert(pow2((8 * k) as nat) == 0x1_0000);
        assert(le_byte(x, k) == (x >> 16u64) as u8);
        assert((x >> 16u64) as u8 as int == (x as int / 0x1_0000) % 0x100) by (bit_vector);
    } else if k == 3 {
        assert(pow2((8 * k) as nat) == 0x100_0000);
        assert(le_byte(x, k) == (x >> 24u64) as u8);
        assert((x >> 24u64) as u8 as int == (x as int / 0x100_0000) % 0x100) by (bit_vector);
    } else if k == 4 {
        assert(pow2((8 * k) as nat) == 0x1_0000_0000);
        assert(le_byte(x, k) == (x >> 32u64) as u8);
        assert((x >> 32u64) as u8 as int == (x as int / 0x1_0000_0000) % 0x100) by (bit_vector);
    } else if k == 5 {
        assert(pow2((8 * k) as nat) == 0x100_0000_0000);
        assert(le_byte(x, k) == (x >> 40u64) as u8);
        assert((x >> 40u64) as u8 as int == (x as int / 0x100_0000_0000) % 0x100) by (bit_vector);
    } else if k == 6 {
        assert(pow2((8 * k) as nat) == 0x1_0000_0000_0000);
        assert(le_byte(x, k) == (x >> 48u64) as u8);
        assert((x >> 48u64) as u8 as int == (x as int / 0x1_0000_0000_0000) % 0x100) by (bit_vector);
    } else {
        assert(pow2((8 * k) as nat) == 0x100_0000_0000_0000);
        assert(le_byte(x, k) == (x >> 56u64) as u8);
        assert((x >> 56u64) as u8 as int == (x as int / 0x100_0000_0000_0000) % 0x100) by (bit_vector);
    }
}

proof fn lemma_fill_bytes_chunk<R: Rng>(rng: R, len: nat)
    requires
        len >= 8,
    ensures
        spec_fill_bytes(rng, len).0 == le_bytes(rng.spec_next_u64().0) + spec_fill_bytes(
            rng.spec_next_u64().1,
            (len - 8) as nat,
        ).0,
        spec_fill_bytes(rng, len).1 == spec_fill_bytes(rng.spec_next_u64().1, (len - 8) as nat).1,
{
    let x = rng.spec_next_u64().0;
    if len == 8 {
        assert(le_bytes(x).take(8) =~= le_bytes(x) + Seq::<u8>::empty());
    }
}

/// Exchanging two elements keeps the multiset of elements.
pub proof fn lemma_swap_multiset<T>(s: Seq<T>, i: int, j: int)
    requires
        0 <= i < s.len(),
        0 <= j < s.len(),
    ensures
        swap_spec(s, i, j).to_multiset() == s.to_multiset(),
{
    broadcast use vstd::seq_lib::to_multiset_update;
    broadcast use vstd::multiset::group_multiset_properties;
    broadcast use vstd::multiset::group_multiset_axioms;

    let m = s.to_multiset();
    let s1 = s.update(i, s[j]);
    let s2 = s1.update(j, s[i]);
    assert(s2 =~= swap_spec(s, i, j));
    assert(s1[j] == s[j]);
    assert(s1.to_multiset() == m.insert(s[j]).remove(s[i]));
    assert(s2.to_multiset() == s1.to_multiset().insert(s[i]).remove(s[j]));
    assert(m.count(s[i]) > 0) by {
        broadcast use vstd::seq_lib::group_to_multiset_ensures;

        assert(s.contains(s[i]));
    }
    assert forall|x: T| #[trigger] s2.to_multiset().count(x) == m.count(x) by {
        if x == s[i] && x == s[j] {
        } else if x == s[i] {
        } else if x == s[j] {
        } else {
        }
    }
    assert(s2.to_multiset() =~= m);
}

/// A shuffle only moves elements around: it keeps the multiset of elements.
pub proof fn lemma_shuffle_permutes<T, R: Rng>(rng: R, s: Seq<T>, inx: nat, fuel: nat)
    requires
        s.len() <= usize::MAX,
        spec_shuffle_from(rng, s, inx, fuel) is Some,
    ensures
        spec_shuffle_from(rng, s, inx, fuel).unwrap().0.to_multiset() == s.to_multiset(),
    decreases s.len() - inx,
{
    if inx + 1 < s.len() {
        let lo = inx as int;
        let hi = s.len() - 1;
        let (j, next) = spec_range_value(rng, lo, hi, 0, usize::MAX as int, <usize as RangeFromRng>::spec_word_bits(lo, hi), fuel).unwrap();
        lemma_range_value_bounds(rng, lo, hi, 0, usize::MAX as int, <usize as RangeFromRng>::spec_word_bits(lo, hi), fuel);
        lemma_swap_multiset(s, lo, j);
        lemma_shuffle_permutes(next, swap_spec(s, lo, j), inx + 1, fuel);
    }
}

/// The operations every generator offers, built on `random_u32` and
/// `random_u64`.
pub trait RngExt: Rng {
    /// Generates a single random value.
    fn random<T: ValueFromRng>(&mut self) -> (r: T)
        ensures
            (r, *final(self)) == spec_value::<T, Self>(*old(self)),
    {
        T::value_from_rng(self)
    }

    /// Generates a single random integer in a range. The distribution is
    /// strictly uniform.
    fn range<T: RangeFromRng, G: IntoGenerateRange<T>>(&mut self, range: G) -> (r: T)
        requires
            range.spec_convertible(),
            range.spec_start() <= range.spec_end_inclusive(),
            exists|fuel: nat|
                spec_range_value(
                    *old(self),
                    range.spec_start(),
                    range.spec_end_inclusive(),
                    T::spec_min(),
                    T::spec_max(),
                    T::spec_word_bits(range.spec_start(), range.spec_end_inclusive()),
                    fuel,
                ) is Some,
        ensures
            range.spec_start() <= r.spec_int() <= range.spec_end_inclusive(),
            exists|fuel: nat|
                spec_range_value(
                    *old(self),
                    range.spec_start(),
                    range.spec_end_inclusive(),
                    T::spec_min(),
                    T::spec_max(),
                    T::spec_word_bits(range.spec_start(), range.spec_end_inclusive()),
                    fuel,
                ) == Some((r.spec_int(), *final(self))),
    {
        T::range_from_rng(self, range)
    }

    /// An endless source of random values, drawn from this generator.
    fn iter<T: ValueFromRng>(&mut self) -> (r: RandomValues<'_, Self, T>)
        ensures
            *r.rng == *old(self),
            *final(self) == *final(r.rng),
    {
        RandomValues { rng: self, marker: core::marker::PhantomData }
    }

    /// Fills a slice with random values.
    fn fill<T: ValueFromRng>(&mut self, destination: &mut [T])
        ensures
            (final(destination)@, *final(self)) == spec_values::<T, Self>(
                *old(self),
                old(destination)@.len(),
            ),
    {
        let len = destination.len();
        let ghost start = *self;
        let mut i: usize = 0;
        while i < len
            invariant
                i <= len,
                len == destination@.len(),
                (destination@.take(i as int), *self) == spec_values::<T, Self>(start, i as nat),
            decreases len - i,
        {
            let ghost before = destination@;
            let v: T = self.random();
            destination[i] = v;
            assert(destination@.take(i + 1) =~= before.take(i as int).push(v));
            i = i + 1;
        }
        assert(destination@.take(len as int) =~= destination@);
    }

    /// Fills a slice of bytes with random values, eight bytes from each u64
    /// draw. Faster than `fill` for bytes.
    fn fill_u8(&mut self, destination: &mut [u8])
        ensures
            (final(destination)@, *final(self)) == spec_fill_bytes(*old(self), old(destination)@.len()),
    {
        let len = destination.len();
        let ghost start = *self;
        let ghost total = spec_fill_bytes(start, len as nat);
        let mut i: usize = 0;
        while len - i >= 8
            invariant
                i <= len,
                len == destination@.len(),
                total == spec_fill_bytes(start, len as nat),
                total.0 == destination@.take(i as int) + spec_fill_bytes(*self, (len - i) as nat).0,
                total.1 == spec_fill_bytes(*self, (len - i) as nat).1,
            decreases len - i,
        {
            let ghost cur = *self;
            proof {
                lemma_fill_bytes_chunk(cur, (len - i) as nat);
            }
            let x = self.random_u64();
            write_le_bytes(destination, i, x, 8);
            assert(le_bytes(x).take(8) =~= le_bytes(x));
            i = i + 8;
        }
        if i < len {
            let ghost cur = *self;
            let x: u64 = self.random();
            proof {
                lemma_draws_one(cur, 64);
            }
            let rem = len - i;
            write_le_bytes(destination, i, x, rem);
            assert(destination@ =~= destination@.take(len as int));
        } else {
            assert(destination@ =~= destination@.take(i as int) + Seq::<u8>::empty());
        }
    }

    /// Shuffles the elements of a slice with the forward Fisher-Yates shuffle.
    fn shuffle<T: Clone>(&mut self, target: &mut [T])
        requires
            exists|fuel: nat| spec_shuffle(*old(self), old(target)@, fuel) is Some,
        ensures
            exists|fuel: nat| spec_shuffle(*old(self), old(target)@, fuel) == Some((final(target)@, *final(self))),
            final(target)@.to_multiset() == old(target)@.to_multiset(),
    {
        let ghost start = *self;
        let ghost unshuffled = target@;
        let ghost fuel: nat = choose|fuel: nat| spec_shuffle(start, unshuffled, fuel) is Some;
        let len = target.len();
        proof {
            lemma_shuffle_permutes(start, unshuffled, 0, fuel);
        }
        if !target.is_empty() {
            let mut inx: usize = 0;
            while inx < len - 1
                invariant
                    0 < len,
                    len == target@.len(),
                    inx <= len - 1,
                    spec_shuffle(start, unshuffled, fuel) == spec_shuffle_from(*self, target@, inx as nat, fuel),
                    spec_shuffle(start, unshuffled, fuel) is Some,
                decreases len - inx,
            {
                let ghost cur = *self;
                let ghost lo = inx as int;
                let ghost hi = len - 1;
                let j: usize = self.range(inx..len);
                let ghost jf = choose|f: nat| #[trigger] spec_range_value(cur, lo, hi, 0, usize::MAX as int, <usize as RangeFromRng>::spec_word_bits(lo, hi), f) == Some((j as int, *self));
                proof {
                    if jf <= fuel {
                        lemma_range_value_fuel(cur, lo, hi, 0, usize::MAX as int, <usize as RangeFromRng>::spec_word_bits(lo, hi), jf, fuel);
                    } else {
                        lemma_range_value_fuel(cur, lo, hi, 0, usize::MAX as int, <usize as RangeFromRng>::spec_word_bits(lo, hi), fuel, jf);
                    }
                }
                let ghost before = target@;
                target.swap(inx, j);
                assert(target@ =~= swap_spec(before, lo, j as int));
                inx = inx + 1;
            }
        }
    }
}

impl<R: Rng> RngExt for R {}

/// Random values drawn one by one from a generator; `next` never runs out.
pub struct RandomValues<'a, R, T> {
    pub rng: &'a mut R,
    pub marker: core::marker::PhantomData<T>,
}

impl<'a, R: Rng, T: ValueFromRng> RandomValues<'a, R, T> {
    /// The next random value. Never `None`.
    pub fn next(&mut self) -> (r: Option<T>)
        ensures
            r == Some(spec_value::<T, R>(*old(self).rng).0),
            *final(self).rng == spec_value::<T, R>(*old(self).rng).1,
    {
        Some(T::value_from_rng(self.rng))
    }
}

/// `<[T]>::swap` exchanges the two elements and panics when either index is
/// out of bounds, as its documentation states.
pub assume_specification<Elem>[ <[Elem]>::swap ](s: &mut [Elem], a: usize, b: usize)
    requires
        a < old(s)@.len(),
        b < old(s)@.len(),
    ensures
        final(s)@ == old(s)@.update(a as int, old(s)@[b as int]).update(b as int, old(s)@[a as int]),
;

/// The random integer a float in `[0, 1)` is scaled from: a u64 draw when it
/// has a bit set above the float's mantissa, so that the whole mantissa is
/// random; otherwise that draw and a second one as the high and low halves
/// of a u128.
pub enum UnitIntervalBits {
    /// A u64 draw, to be divided by 2^64.
    Narrow(u64),
    /// Two u64 draws as one u128, to be divided by 2^128.
    Wide(u128),
}

/// What `unit_interval_bits` draws for a float with `mantissa_bits` bits of
/// mantissa, and the generator after it.
pub open spec fn spec_unit_interval_bits<R: Rng>(rng: R, mantissa_bits: u32) -> (UnitIntervalBits, R) {
    let (high, mid) = spec_value::<u64, R>(rng);
    if (high >> mantissa_bits) != 0 {
        (UnitIntervalBits::Narrow(high), mid)
    } else {
        let (low, next) = spec_value::<u64, R>(mid);
        (UnitIntervalBits::Wide((high as int * 0x1_0000_0000_0000_0000 + low as int) as u128), next)
    }
}

/// The integer a float in `[0, 1)` is made from is the next u64 when that has
/// a bit set at or above `mantissa_bits`, with the generator after one draw;
/// otherwise it is that u64 times 2^64 plus the u64 after it, with the
/// generator after two draws.
pub proof fn lemma_unit_interval_bits<R: Rng>(rng: R, mantissa_bits: u32)
    requires
        mantissa_bits < 64,
    ensures
        rng.spec_next_u64().0 >= pow2(mantissa_bits as nat) ==> spec_unit_interval_bits(rng, mantissa_bits)
            == (UnitIntervalBits::Narrow(rng.spec_next_u64().0), rng.spec_next_u64().1),
        rng.spec_next_u64().0 < pow2(mantissa_bits as nat) ==> spec_unit_interval_bits(rng, mantissa_bits)
            == (
            UnitIntervalBits::Wide(
                (rng.spec_next_u64().0 * 0x1_0000_0000_0000_0000 + rng.spec_next_u64().1.spec_next_u64().0) as u128,
            ),
            rng.spec_next_u64().1.spec_next_u64().1,
        ),
{
    lemma_random_values(rng);
    lemma_random_values(rng.spec_next_u64().1);
    let x = rng.spec_next_u64().0;
    let m = mantissa_bits;
    vstd::arithmetic::power2::lemma_pow2(m as nat);
    assert((x >> m) != 0 <==> x >= pow2(m as nat)) by {
        vstd::bits::lemma_u64_shr_is_div(x, m as u64);
        assert(x >> m == x >> (m as u64)) by (bit_vector);
        vstd::arithmetic::power2::lemma_pow2_pos(m as nat);
        if x >= pow2(m as nat) {
            vstd::arithmetic::div_mod::lemma_div_is_ordered(pow2(m as nat) as int, x as int, pow2(m as nat) as int);
            vstd::arithmetic::div_mod::lemma_div_by_self(pow2(m as nat) as int);
        } else {
            vstd::arithmetic::div_mod::lemma_basic_div(x as int, pow2(m as nat) as int);
        }
    }
    let l = rng.spec_next_u64().1.spec_next_u64().0;
    assert((x as int * 0x1_0000_0000_0000_0000 + l as int) as u128 as int == x as int * 0x1_0000_0000_0000_0000
        + l as int) by (bit_vector);
}

/// Draws the random integer a float in `[0, 1)` is made from (52 mantissa
/// bits for f64, 23 for f32).
pub fn unit_interval_bits<R: Rng>(rng: &mut R, mantissa_bits: u32) -> (r: UnitIntervalBits)
    requires
        mantissa_bits < 64,
    ensures
        (r, *final(rng)) == spec_unit_interval_bits(*old(rng), mantissa_bits),
{
    let high: u64 = u64::value_from_rng(rng);
    if (high >> mantissa_bits) != 0 {
        UnitIntervalBits::Narrow(high)
    } else {
        let low: u64 = u64::value_from_rng(rng);
        let r = (u128::from(high) << 64) | u128::from(low);
        assert(((high as u128) << 64) | (low as u128) == high as int * 0x1_0000_0000_0000_0000
            + low as int) by (bit_vector);
        UnitIntervalBits::Wide(r)
    }
}

} // verus!
