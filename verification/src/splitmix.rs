//! SplitMix64, a small generator used to stretch a single u64 into seed bytes.
use vstd::prelude::*;
use crate::entropy::EntropySource;
use crate::rng::{le_bytes, write_le_bytes};

verus! {

/// The SplitMix64 generator. It is a deterministic source of seed bytes.
pub struct SplitMix {
    state: u64,
}

/// The increment SplitMix64 adds to its state at each step.
pub const SPLITMIX_GAMMA: u64 = 0x9E37_79B9_7F4A_7C15;

/// One SplitMix64 step from `state`: the output and the next state.
pub open spec fn splitmix_next(state: u64) -> (u64, u64) {
    let s = vstd::wrapping::u64_specs::wrapping_add(state, SPLITMIX_GAMMA);
    let z = vstd::wrapping::u64_specs::wrapping_mul(s ^ (s >> 30u64), 0xBF58_476D_1CE4_E5B9);
    let z = vstd::wrapping::u64_specs::wrapping_mul(z ^ (z >> 27u64), 0x94D0_49BB_1331_11EB);
    (z ^ (z >> 31u64), s)
}

/// The `len` bytes SplitMix64 writes from `state`: the little-endian bytes of
/// one output after another, the last one cut short; and the state after them.
pub open spec fn splitmix_bytes(state: u64, len: nat) -> (Seq<u8>, u64)
    decreases len,
{
    if len == 0 {
        (Seq::empty(), state)
    } else {
        let (x, next) = splitmix_next(state);
        if len <= 8 {
            (le_bytes(x).take(len as int), next)
        } else {
            let (rest, last) = splitmix_bytes(next, (len - 8) as nat);
            (le_bytes(x) + rest, last)
        }
    }
}

pub(crate) proof fn lemma_splitmix_bytes_chunk(state: u64, len: nat)
    requires
        len >= 8,
    ensures
        splitmix_bytes(state, len).0 == le_bytes(splitmix_next(state).0) + splitmix_bytes(
            splitmix_next(state).1,
            (len - 8) as nat,
        ).0,
        splitmix_bytes(state, len).1 == splitmix_bytes(splitmix_next(state).1, (len - 8) as nat).1,
{
    let x = splitmix_next(state).0;
    if len == 8 {
        assert(le_bytes(x).take(8) =~= le_bytes(x) + Seq::<u8>::empty());
    }
}

impl SplitMix {
    /// The generator's state.
    pub closed spec fn state(&self) -> u64 {
        self.state
    }

    /// Creates a SplitMix64 generator from a seed.
    pub fn new(seed: u64) -> (r: SplitMix)
        ensures
            r.state() == seed,
    {
        SplitMix { state: seed }
    }

    /// The next SplitMix64 output.
    pub fn next_u64(&mut self) -> (r: u64)
        ensures
            (r, final(self).state()) == splitmix_next(old(self).state()),
    {
        self.state = self.state.wrapping_add(SPLITMIX_GAMMA);
        let mut z = self.state;
        z = (z ^ (z >> 30)).wrapping_mul(0xBF58_476D_1CE4_E5B9);
        z = (z ^ (z >> 27)).wrapping_mul(0x94D0_49BB_1331_11EB);
        z ^ (z >> 31)
    }
}

impl EntropySource for SplitMix {
    open spec fn spec_fills(&self, bytes: Seq<u8>, after: SplitMix) -> bool {
        splitmix_bytes(self.state(), bytes.len()) == (bytes, after.state())
    }

    fn fill(&mut self, destination: &mut [u8]) {
        let len = destination.len();
        let ghost total = splitmix_bytes(self.state(), len as nat);
        let mut i: usize = 0;
        while len - i >= 8
            invariant
                i <= len,
                len == destination@.len(),
                total.0 == destination@.take(i as int) + splitmix_bytes(self.state(), (len - i) as nat).0,
                total.1 == splitmix_bytes(self.state(), (len - i) as nat).1,
            decreases len - i,
        {
            proof {
                lemma_splitmix_bytes_chunk(self.state(), (len - i) as nat);
            }
            let x = self.next_u64();
            write_le_bytes(destination, i, x, 8);
            assert(le_bytes(x).take(8) =~= le_bytes(x));
            i = i + 8;
        }
        if i < len {
            let x = self.next_u64();
            let rem = len - i;
            write_le_bytes(destination, i, x, rem);
            assert(destination@ =~= destination@.take(len as int));
        } else {
            assert(destination@ =~= destination@.take(i as int) + Seq::<u8>::empty());
        }
    }
}

} // verus!
