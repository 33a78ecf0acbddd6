# smallrand

Random number generation with minimal dependencies: a small, fast generator
(`SmallRng`, Xoshiro256++), uniformly distributed integers in any range,
fills and shuffles. The library is verified with Verus.

## Layout

- `src/rng.rs`: the `Rng` trait every generator implements (a deterministic
  state machine described by `spec_next_u32` / `spec_next_u64`), the
  `ValueFromRng` trait for single values, and `RngExt` with `random`,
  `range`, `iter`, `fill`, `fill_u8` and `shuffle`.
- `src/zero_based.rs`: Lemire's method (16-, 32- and 64-bit words) and
  rejection sampling (128-bit words) for a value below a bound.
- `src/integer_range.rs`: `RangeFromRng` for every integer type.
- `src/ranges.rs`: `GenerateRange` and the conversions from Rust's range
  expressions (`a..b`, `a..=b`, `..`, `..b`, `..=b`, `a..`).
- `src/uniform.rs`: the proofs that the range algorithms are strictly
  uniform over the possible draws.
- `src/fisher_yates.rs`: the shuffle as a function of its draws, and the
  proof that each arrangement comes from exactly one sequence of draws.
- `src/xoshiro.rs`, `src/splitmix.rs`, `src/smallrng.rs`: the generators.
- `src/entropy.rs`: the `EntropySource` trait for seeding.
- `app/lib.rs`: seeding from `/dev/urandom` and floating-point ranges, which
  stay in ordinary Rust.

The range and shuffle functions draw until a draw is kept; their
preconditions ask that the generator's stream does keep one, which is what
makes them terminate. `integer_range::lemma_range_terminates` discharges
that precondition for the whole type and for ranges whose number of values
divides the number of words.
