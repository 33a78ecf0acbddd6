//! `SmallRng`: a small and fast generator that is not cryptographically secure.
use vstd::prelude::*;
use crate::entropy::EntropySource;
use crate::ranges::IntoGenerateRange;
use crate::integer_range::{RangeFromRng, spec_range_value};
use crate::rng::{
    Rng, RngExt, ValueFromRng, RandomValues, spec_value, spec_values, spec_fill_bytes, spec_shuffle,
};
use crate::splitmix::{SplitMix, splitmix_next, splitmix_bytes, lemma_splitmix_bytes_chunk};
use crate::xoshiro::{Xoshiro256pp, XoshiroState, state_from_bytes, xoshiro_next, lemma_le_word_at};
use crate::rng::le_bytes;

verus! {

/// This is a numerically good PRNG if you need something small and fast
/// but not cryptographically secure. The PRNG currently used is
/// Xoshiro256++.
///
/// The algorithm may change at any time, so if your code depends on the
/// algorithm or its output staying the same then you should use a specific
/// algorithm instead.
pub struct SmallRng(Xoshiro256pp);

impl View for SmallRng {
    type V = XoshiroState;

    closed spec fn view(&self) -> XoshiroState {
        self.0@
    }
}

impl Rng for SmallRng {
    closed spec fn spec_next_u32(&self) -> (u32, SmallRng) {
        let (x, next) = self.0.spec_next_u32();
        (x, SmallRng(next))
    }

    closed spec fn spec_next_u64(&self) -> (u64, SmallRng) {
        let (x, next) = self.0.spec_next_u64();
        (x, SmallRng(next))
    }

    fn random_u32(&mut self) -> (r: u32) {
        self.0.random_u32()
    }

    fn random_u64(&mut self) -> (r: u64) {
        self.0.random_u64()
    }
}

/// The Xoshiro256++ state `SmallRng::from_seed(seed)` starts from: four
/// consecutive SplitMix64 outputs from `seed`.
pub open spec fn splitmix_state(seed: u64) -> XoshiroState {
    let (a, s1) = splitmix_next(seed);
    let (b, s2) = splitmix_next(s1);
    let (c, s3) = splitmix_next(s2);
    let (d, _) = splitmix_next(s3);
    (a, b, c, d)
}

/// Seeding from four SplitMix64 outputs' worth of bytes gives those outputs
/// as the four state words.
proof fn lemma_splitmix_seed(seed: u64)
    ensures
        state_from_bytes(splitmix_bytes(seed, 32).0) == splitmix_state(seed),
{
    let (a, s1) = splitmix_next(seed);
    let (b, s2) = splitmix_next(s1);
    let (c, s3) = splitmix_next(s2);
    let (d, s4) = splitmix_next(s3);
    lemma_splitmix_bytes_chunk(seed, 32);
    lemma_splitmix_bytes_chunk(s1, 24);
    lemma_splitmix_bytes_chunk(s2, 16);
    lemma_splitmix_bytes_chunk(s3, 8);
    assert(splitmix_bytes(s4, 0).0 =~= Seq::<u8>::empty());
    let bytes = splitmix_bytes(seed, 32).0;
    assert(bytes =~= le_bytes(a) + (le_bytes(b) + (le_bytes(c) + (le_bytes(d) + Seq::<u8>::empty()))));
    lemma_le_word_at(bytes, 0, a);
    lemma_le_word_at(bytes, 8, b);
    lemma_le_word_at(bytes, 16, c);
    lemma_le_word_at(bytes, 24, d);
}

impl SmallRng {
    /// A draw from `SmallRng` is a Xoshiro256++ step: the u64 is the step's
    /// output, the u32 its low half.
    pub proof fn lemma_next(x: SmallRng)
        ensures
            x.spec_next_u64().0 == xoshiro_next(x@).0,
            x.spec_next_u64().1@ == xoshiro_next(x@).1,
            x.spec_next_u32().0 == xoshiro_next(x@).0 as u32,
            x.spec_next_u32().1@ == xoshiro_next(x@).1,
    {
        Xoshiro256pp::lemma_next(x.0);
    }

    /// Creates a new random generator from 32 bytes of fresh entropy (the
    /// operating system's, for instance).
    pub fn new(entropy: [u8; 32]) -> (r: SmallRng)
        ensures
            r@ == state_from_bytes(entropy@),
    {
        SmallRng(Xoshiro256pp::from_seed_bytes(&entropy))
    }

    /// Creates a new random generator with a seed from an entropy source.
    pub fn from_entropy<T: EntropySource>(entropy_source: &mut T) -> (r: SmallRng)
        ensures
            exists|seed: Seq<u8>|
                seed.len() == 32 && old(entropy_source).spec_fills(seed, *final(entropy_source)) && r@
                    == state_from_bytes(seed),
    {
        SmallRng(Xoshiro256pp::from_entropy(entropy_source))
    }

    /// Creates a new random generator with a specified seed.
    ///
    /// A single u64 is less entropy than the generator really needs: this is
    /// meant for tests that want the same output every time.
    pub fn from_seed(seed: u64) -> (r: SmallRng)
        ensures
            r@ == splitmix_state(seed),
    {
        let mut source = SplitMix::new(seed);
        let r = SmallRng(Xoshiro256pp::from_entropy(&mut source));
        proof {
            lemma_splitmix_seed(seed);
        }
        r
    }

    /// Generates a single random value.
    pub fn random<T: ValueFromRng>(&mut self) -> (r: T)
        ensures
            (r, *final(self)) == spec_value::<T, SmallRng>(*old(self)),
    {
        RngExt::random(self)
    }

    /// Generates a single random integer in a range. The distribution is
    /// strictly uniform.
    pub fn range<T: RangeFromRng>(&mut self, range: impl IntoGenerateRange<T>) -> (r: T)
        requires
            range.spec_convertible(),
            range.spec_start() <= range.spec_end_inclusive(),
            exists|fuel: nat|
                spec_range_value(
                    *old(self),
                    range.spec_start(),
                    range.spec_end_inclusive(),
                    T::spec_min(),
                    T::spec_max(),
                    T::spec_word_bits(range.spec_start(), range.spec_end_inclusive()),
                    fuel,
                ) is Some,
        ensures
            range.spec_start() <= r.spec_int() <= range.spec_end_inclusive(),
            exists|fuel: nat|
                spec_range_value(
                    *old(self),
                    range.spec_start(),
                    range.spec_end_inclusive(),
                    T::spec_min(),
                    T::spec_max(),
                    T::spec_word_bits(range.spec_start(), range.spec_end_inclusive()),
                    fuel,
                ) == Some((r.spec_int(), *final(self))),
    {
        RngExt::range(self, range)
    }

    /// An endless source of random values drawn from this generator.
    pub fn iter<T: ValueFromRng>(&mut self) -> (r: RandomValues<'_, SmallRng, T>)
        ensures
            *r.rng == *old(self),
            *final(self) == *final(r.rng),
    {
        RngExt::iter(self)
    }

    /// Fills a slice with random values.
    pub fn fill<T: ValueFromRng>(&mut self, destination: &mut [T])
        ensures
            (final(destination)@, *final(self)) == spec_values::<T, SmallRng>(
                *old(self),
                old(destination)@.len(),
            ),
    {
        RngExt::fill(self, destination);
    }

    /// Fills a slice of bytes with random values. Faster than `fill` for bytes.
    pub fn fill_u8(&mut self, destination: &mut [u8])
        ensures
            (final(destination)@, *final(self)) == spec_fill_bytes(*old(self), old(destination)@.len()),
    {
        RngExt::fill_u8(self, destination);
    }

    /// Shuffles the elements of a slice.
    pub fn shuffle<T: Clone>(&mut self, target: &mut [T])
        requires
            exists|fuel: nat| spec_shuffle(*old(self), old(target)@, fuel) is Some,
        ensures
            exists|fuel: nat| spec_shuffle(*old(self), old(target)@, fuel) == Some((final(target)@, *final(self))),
            final(target)@.to_multiset() == old(target)@.to_multiset(),
    {
        RngExt::shuffle(self, target);
    }
}

/// A `SmallRng` is determined by its state: generators in the same state
/// are the same generator, and so give the same values from then on. So
/// `new(bytes)` and `from_entropy` on a source that writes those bytes make
/// the same generator.
pub proof fn lemma_state_determines(a: SmallRng, b: SmallRng)
    requires
        a@ == b@,
    ensures
        a == b,
{
    Xoshiro256pp::lemma_state(a.0, a@);
    Xoshiro256pp::lemma_state(b.0, b@);
}

/// Generators made from the same seed are the same generator, so they
/// produce the same values.
pub proof fn lemma_from_seed_reproducible(a: SmallRng, b: SmallRng, seed: u64)
    requires
        a@ == splitmix_state(seed),
        b@ == splitmix_state(seed),
    ensures
        a == b,
        a.spec_next_u64() == b.spec_next_u64(),
        a.spec_next_u32() == b.spec_next_u32(),
{
    Xoshiro256pp::lemma_state(a.0, a@);
    Xoshiro256pp::lemma_state(b.0, b@);
}

/// Seeded from a SplitMix64 source, a generator starts from the four
/// outputs the source gives next, whatever the source had given before:
/// sources in the same state make the same generator.
pub proof fn lemma_splitmix_entropy(source: SplitMix, seed: Seq<u8>, after: SplitMix)
    requires
        seed.len() == 32,
        source.spec_fills(seed, after),
    ensures
        state_from_bytes(seed) == splitmix_state(source.state()),
{
    lemma_splitmix_seed(source.state());
}

} // verus!
