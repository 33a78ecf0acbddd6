//! Random number generation with verified range, shuffle and fill algorithms.

pub mod ranges;
pub mod rng;
pub mod zero_based;
pub mod integer_range;

pub mod entropy;
pub mod splitmix;
pub mod xoshiro;
pub mod smallrng;

pub use crate::entropy::EntropySource;
pub use crate::ranges::{GenerateRange, IntoGenerateRange, RangeValue};
pub use crate::integer_range::RangeFromRng;
pub use crate::rng::{RandomValues, Rng, RngExt, ValueFromRng};
pub use crate::smallrng::SmallRng;
pub use crate::splitmix::SplitMix;
pub use crate::xoshiro::Xoshiro256pp;
pub mod uniform;
pub mod fisher_yates;
