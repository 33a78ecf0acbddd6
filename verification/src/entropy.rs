//! Sources of seed bytes for the generators.
use vstd::prelude::*;

verus! {

/// A source of bytes to seed a generator with.
///
/// A source may be deterministic (a seeded generator) or not (the operating
/// system's entropy); `spec_fills` relates what it can write to the state it
/// is left in.
pub trait EntropySource: Sized {
    /// Whether `fill` can write `bytes` and leave the source as `after`.
    spec fn spec_fills(&self, bytes: Seq<u8>, after: Self) -> bool;

    /// Fills `destination` with bytes from the source.
    fn fill(&mut self, destination: &mut [u8])
        ensures
            final(destination)@.len() == old(destination)@.len(),
            old(self).spec_fills(final(destination)@, *final(self)),
    ;
}

} // verus!
