//! Xoshiro256++, the algorithm behind `SmallRng`.
use vstd::prelude::*;
use crate::entropy::EntropySource;
use crate::rng::{Rng, le_bytes};

verus! {

/// The four 64-bit words of a Xoshiro256++ state.
pub type XoshiroState = (u64, u64, u64, u64);

/// `x` rotated left by `k` bits (0 < k < 64).
pub open spec fn rotl(x: u64, k: u64) -> u64 {
    (x << k) | (x >> (64 - k) as u64)
}

/// One Xoshiro256++ step: the output and the next state.
pub open spec fn xoshiro_next(s: XoshiroState) -> (u64, XoshiroState) {
    let (s0, s1, s2, s3) = s;
    let result = vstd::wrapping::u64_specs::wrapping_add(
        rotl(vstd::wrapping::u64_specs::wrapping_add(s0, s3), 23),
        s0,
    );
    let t = s1 << 17u64;
    let s2 = s2 ^ s0;
    let s3 = s3 ^ s1;
    let s1 = s1 ^ s2;
    let s0 = s0 ^ s3;
    let s2 = s2 ^ t;
    let s3 = rotl(s3, 45);
    (result, (s0, s1, s2, s3))
}

/// The u64 made of eight bytes of `b` from `off` on, read as little-endian.
pub open spec fn le_word(b: Seq<u8>, off: int) -> u64 {
    (b[off] as int + 0x100 * b[off + 1] as int + 0x1_0000 * b[off + 2] as int + 0x100_0000 * b[off
        + 3] as int + 0x1_0000_0000 * b[off + 4] as int + 0x100_0000_0000 * b[off + 5] as int
        + 0x1_0000_0000_0000 * b[off + 6] as int + 0x100_0000_0000_0000 * b[off + 7] as int) as u64
}

/// The state made of 32 seed bytes: four little-endian words.
pub open spec fn state_from_bytes(b: Seq<u8>) -> XoshiroState {
    (le_word(b, 0), le_word(b, 8), le_word(b, 16), le_word(b, 24))
}

/// Reading back the little-endian bytes of a word gives the word.
pub proof fn lemma_le_word_of_bytes(x: u64)
    ensures
        le_word(le_bytes(x), 0) == x,
{
    let b = le_bytes(x);
    let b0 = (x >> 0u64) as u8;
    let b1 = (x >> 8u64) as u8;
    let b2 = (x >> 16u64) as u8;
    let b3 = (x >> 24u64) as u8;
    let b4 = (x >> 32u64) as u8;
    let b5 = (x >> 40u64) as u8;
    let b6 = (x >> 48u64) as u8;
    let b7 = (x >> 56u64) as u8;
    assert(b[0] == b0 && b[1] == b1 && b[2] == b2 && b[3] == b3);
    assert(b[4] == b4 && b[5] == b5 && b[6] == b6 && b[7] == b7);
    assert(b0 as int + 0x100 * b1 as int + 0x1_0000 * b2 as int + 0x100_0000 * b3 as int + 0x1_0000_0000
        * b4 as int + 0x100_0000_0000 * b5 as int + 0x1_0000_0000_0000 * b6 as int
        + 0x100_0000_0000_0000 * b7 as int == x) by (bit_vector)
        requires
            b0 == (x >> 0u64) as u8,
            b1 == (x >> 8u64) as u8,
            b2 == (x >> 16u64) as u8,
            b3 == (x >> 24u64) as u8,
            b4 == (x >> 32u64) as u8,
            b5 == (x >> 40u64) as u8,
            b6 == (x >> 48u64) as u8,
            b7 == (x >> 56u64) as u8,
    ;
}

/// Eight bytes that are the little-endian bytes of `x` read back as `x`,
/// wherever they stand.
pub proof fn lemma_le_word_at(b: Seq<u8>, off: int, x: u64)
    requires
        0 <= off,
        off + 8 <= b.len(),
        forall|m: int| 0 <= m < 8 ==> b[off + m] == #[trigger] le_bytes(x)[m],
    ensures
        le_word(b, off) == x,
{
    lemma_le_word_of_bytes(x);
    let lb = le_bytes(x);
    assert(b[off] == lb[0] && b[off + 1] == lb[1] && b[off + 2] == lb[2] && b[off + 3] == lb[3]);
    assert(b[off + 4] == lb[4] && b[off + 5] == lb[5] && b[off + 6] == lb[6] && b[off + 7] == lb[7]);
}

/// The Xoshiro256++ generator by Blackman and Vigna: small, fast and
/// statistically good, but predictable from its output.
pub struct Xoshiro256pp {
    s0: u64,
    s1: u64,
    s2: u64,
    s3: u64,
}

impl View for Xoshiro256pp {
    type V = XoshiroState;

    closed spec fn view(&self) -> XoshiroState {
        (self.s0, self.s1, self.s2, self.s3)
    }
}

impl Xoshiro256pp {
    /// The generator whose state is `s`.
    pub closed spec fn spec_with_state(s: XoshiroState) -> Xoshiro256pp {
        Xoshiro256pp { s0: s.0, s1: s.1, s2: s.2, s3: s.3 }
    }

    /// A generator's state determines it.
    pub proof fn lemma_state(x: Xoshiro256pp, s: XoshiroState)
        ensures
            Self::spec_with_state(s)@ == s,
            Self::spec_with_state(x@) == x,
    {
    }

    /// Creates a generator from 32 seed bytes, read as four little-endian words.
    pub fn from_seed_bytes(seed: &[u8; 32]) -> (r: Xoshiro256pp)
        ensures
            r@ == state_from_bytes(seed@),
    {
        Xoshiro256pp {
            s0: read_le_word(seed, 0),
            s1: read_le_word(seed, 8),
            s2: read_le_word(seed, 16),
            s3: read_le_word(seed, 24),
        }
    }

    /// Creates a generator from 32 bytes taken from an entropy source.
    pub fn from_entropy<T: EntropySource>(entropy_source: &mut T) -> (r: Xoshiro256pp)
        ensures
            exists|seed: Seq<u8>|
                seed.len() == 32 && old(entropy_source).spec_fills(seed, *final(entropy_source)) && r@
                    == state_from_bytes(seed),
    {
        let mut seed = [0u8; 32];
        entropy_source.fill(&mut seed);
        Self::from_seed_bytes(&seed)
    }
}

/// The u64 made of the eight bytes of `b` from `off` on, read as little-endian.
fn read_le_word(b: &[u8; 32], off: usize) -> (r: u64)
    requires
        off + 8 <= 32,
    ensures
        r == le_word(b@, off as int),
{
    let b0 = b[off];
    let b1 = b[off + 1];
    let b2 = b[off + 2];
    let b3 = b[off + 3];
    let b4 = b[off + 4];
    let b5 = b[off + 5];
    let b6 = b[off + 6];
    let b7 = b[off + 7];
    let r = (b0 as u64) | ((b1 as u64) << 8) | ((b2 as u64) << 16) | ((b3 as u64) << 24) | ((
    b4 as u64) << 32) | ((b5 as u64) << 40) | ((b6 as u64) << 48) | ((b7 as u64) << 56);
    assert(r == b0 as int + 0x100 * b1 as int + 0x1_0000 * b2 as int + 0x100_0000 * b3 as int
        + 0x1_0000_0000 * b4 as int + 0x100_0000_0000 * b5 as int + 0x1_0000_0000_0000 * b6 as int
        + 0x100_0000_0000_0000 * b7 as int) by (bit_vector)
        requires
            r == (b0 as u64) | ((b1 as u64) << 8) | ((b2 as u64) << 16) | ((b3 as u64) << 24) | ((
            b4 as u64) << 32) | ((b5 as u64) << 40) | ((b6 as u64) << 48) | ((b7 as u64) << 56),
    ;
    r
}

impl Rng for Xoshiro256pp {
    closed spec fn spec_next_u32(&self) -> (u32, Xoshiro256pp) {
        let (x, s) = xoshiro_next(self@);
        (x as u32, Self::spec_with_state(s))
    }

    closed spec fn spec_next_u64(&self) -> (u64, Xoshiro256pp) {
        let (x, s) = xoshiro_next(self@);
        (x, Self::spec_with_state(s))
    }

    /// The low 32 bits of the next u64.
    fn random_u32(&mut self) -> (r: u32) {
        self.random_u64() as u32
    }

    fn random_u64(&mut self) -> (r: u64) {
        let sum = self.s0.wrapping_add(self.s3);
        let result = (sum << 23 | sum >> 41).wrapping_add(self.s0);
        let t = self.s1 << 17;
        self.s2 = self.s2 ^ self.s0;
        self.s3 = self.s3 ^ self.s1;
        self.s1 = self.s1 ^ self.s2;
        self.s0 = self.s0 ^ self.s3;
        self.s2 = self.s2 ^ t;
        self.s3 = self.s3 << 45 | self.s3 >> 19;
        result
    }
}

impl Xoshiro256pp {
    /// What a draw from the generator is, step by step.
    pub proof fn lemma_next(x: Xoshiro256pp)
        ensures
            x.spec_next_u64().0 == xoshiro_next(x@).0,
            x.spec_next_u64().1@ == xoshiro_next(x@).1,
            x.spec_next_u32().0 == xoshiro_next(x@).0 as u32,
            x.spec_next_u32().1@ == xoshiro_next(x@).1,
    {
    }
}

} // verus!
