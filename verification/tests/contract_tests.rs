use smallrand::rng::{unit_interval_bits, UnitIntervalBits};
use smallrand::{EntropySource, GenerateRange, Rng, RngExt, SmallRng, SplitMix, Xoshiro256pp};

/// Hands out consecutive u64 values; a u32 draw is the low half of one.
struct Counter(u64);

impl Rng for Counter {
    fn spec_next_u32(&self) -> (u32, Self) {
        (self.0 as u32, Counter(self.0.wrapping_add(1)))
    }

    fn spec_next_u64(&self) -> (u64, Self) {
        (self.0, Counter(self.0.wrapping_add(1)))
    }

    fn random_u32(&mut self) -> u32 {
        self.random_u64() as u32
    }

    fn random_u64(&mut self) -> u64 {
        let result = self.0;
        self.0 = self.0.wrapping_add(1);
        result
    }
}

#[test]
fn splitmix_gives_the_reference_outputs() {
    let mut source = SplitMix::new(0);
    assert_eq!(source.next_u64(), 0xe220a8397b1dcdaf);
    assert_eq!(source.next_u64(), 0x6e789e6aa1b965f4);
    assert_eq!(source.next_u64(), 0x06c45d188009454f);
}

#[test]
fn splitmix_fills_little_endian_words_cut_short() {
    let mut source = SplitMix::new(0);
    let mut bytes = [0u8; 10];
    source.fill(&mut bytes);
    assert_eq!(bytes, [0xaf, 0xcd, 0x1d, 0x7b, 0x39, 0xa8, 0x20, 0xe2, 0xf4, 0x65]);
}

#[test]
fn xoshiro_seeded_from_splitmix() {
    let mut rng = Xoshiro256pp::from_entropy(&mut SplitMix::new(42));
    assert_eq!(rng.random_u64(), 0xd0764d4f4476689f);
    assert_eq!(rng.random_u64(), 0x519e4174576f3791);
}

#[test]
fn xoshiro_u32_is_the_low_half_of_a_u64() {
    let mut rng = Xoshiro256pp::from_entropy(&mut SplitMix::new(42));
    assert_eq!(rng.random_u32(), 0x4476689f);
    assert_eq!(rng.random_u32(), 0x576f3791);
}

#[test]
fn xoshiro_reads_seed_bytes_as_little_endian_words() {
    let mut same = Xoshiro256pp::from_seed_bytes(&[1u8; 32]);
    assert_eq!(same.random_u64(), 0x0202020202020202);
}

#[test]
fn from_seed_starts_from_four_splitmix_outputs() {
    let mut source = SplitMix::new(42);
    let mut seed = [0u8; 32];
    for k in 0..4 {
        seed[8 * k..8 * k + 8].copy_from_slice(&source.next_u64().to_le_bytes());
    }
    let mut from_bytes = SmallRng::new(seed);
    let mut from_seed = SmallRng::from_seed(42);
    assert_eq!(from_seed.random_u64(), 0xd0764d4f4476689f);
    assert_eq!(from_bytes.random_u64(), 0xd0764d4f4476689f);
}

#[test]
fn bool_is_the_lowest_bit_of_a_u32() {
    let mut rng = Counter(6);
    assert!(!rng.random::<bool>());
    assert!(rng.random::<bool>());
}

#[test]
fn u128_takes_the_high_half_first() {
    let mut rng = Counter(5);
    assert_eq!(rng.random::<u128>(), (5u128 << 64) | 6);
}

#[test]
fn narrow_values_keep_the_low_bits() {
    let mut rng = Counter(0x1_0000_01ff);
    assert_eq!(rng.random::<u8>(), 0xff);
    assert_eq!(rng.random::<u16>(), 0x0200);
    assert_eq!(rng.random::<usize>(), 0x1_0000_0201);
}

#[test]
fn lemire_gives_the_high_word_of_the_product() {
    let mut rng = Counter(0x8000);
    assert_eq!(rng.range(13u8..42), 27);
    assert_eq!(rng.0, 0x8001);
}

#[test]
fn lemire_turns_down_low_words_below_the_threshold() {
    // For 29 values, a u16 word is turned down when the low half of
    // word * 29 is below 65536 % 29 = 25: the word 0 is, the word 1 is not.
    let mut rng = Counter(0);
    assert_eq!(rng.range(13u8..42), 13);
    assert_eq!(rng.0, 2);
}

#[test]
fn ranges_of_other_widths() {
    let mut rng = Counter(0x1234_5678_9abc_def0);
    assert_eq!(rng.range(100u64..=1000), 164);
    let mut rng = Counter(0x1234_5678_9abc_def0);
    assert_eq!(rng.range(-50i32..50), 10);
    let mut rng = Counter(0x1234_5678_9abc_def0);
    assert_eq!(rng.range::<usize, _>(..42), 25);
    let mut rng = Counter(0);
    assert_eq!(rng.range(GenerateRange { start: 3u16, end_inclusive: 3 }), 3);
    let mut rng = Counter(0x1234_5678_9abc_def0);
    let value: u8 = rng.range(250u8..);
    assert!(value >= 250);
}

#[test]
fn whole_type_ranges_cast_one_word() {
    let mut rng = Counter(0x80ff);
    let value: i8 = rng.range(..);
    assert_eq!(value, -1);
    // A whole usize range is drawn from a word as wide as usize.
    let mut rng = Counter(0x1_0000_0005);
    let value: usize = rng.range(..);
    assert_eq!(value, 0x1_0000_0005);
}

#[test]
fn wide_usize_ranges_draw_64_bit_words() {
    // 2^32 + 1 values do not fit a 32-bit word: the high word of
    // 2^63 * (2^32 + 1) is 2^31.
    let mut rng = Counter(1 << 63);
    let value: usize = rng.range(0..=(1usize << 32));
    assert_eq!(value, 1 << 31);
    assert_eq!(rng.0, (1 << 63) + 1);
}

#[test]
fn fill_u8_writes_little_endian_draws() {
    let mut rng = Counter(0x0102030405060708);
    let mut bytes = [0u8; 11];
    rng.fill_u8(&mut bytes);
    assert_eq!(bytes, [8, 7, 6, 5, 4, 3, 2, 1, 9, 7, 6]);
    assert_eq!(rng.0, 0x010203040506070a);
}

#[test]
fn fill_draws_one_value_per_element() {
    let mut rng = Counter(10);
    let mut values = [0u16; 3];
    rng.fill(&mut values);
    assert_eq!(values, [10, 11, 12]);
}

#[test]
fn shuffle_keeps_the_elements() {
    let mut rng = SmallRng::from_seed(7);
    let unshuffled: Vec<u32> = (0..50).collect();
    let mut shuffled = unshuffled.clone();
    rng.shuffle(&mut shuffled);
    assert_ne!(shuffled, unshuffled);
    shuffled.sort();
    assert_eq!(shuffled, unshuffled);
}

#[test]
fn iter_never_runs_out() {
    let mut rng = Counter(3);
    let mut values = rng.iter::<u64>();
    assert_eq!(values.next(), Some(3));
    assert_eq!(values.next(), Some(4));
}

#[test]
fn unit_interval_bits_widen_small_draws() {
    let mut rng = Counter(1 << 60);
    assert!(matches!(unit_interval_bits(&mut rng, 52), UnitIntervalBits::Narrow(x) if x == 1 << 60));
    let mut rng = Counter(5);
    assert!(matches!(unit_interval_bits(&mut rng, 52), UnitIntervalBits::Wide(x) if x == (5u128 << 64) | 6));
}

#[test]
fn shifted_ranges_draw_the_same_words() {
    let mut first = SmallRng::from_seed(42);
    let mut second = SmallRng::from_seed(42);
    for _ in 0..100 {
        let low: u32 = first.range(3..=10);
        let high: u32 = second.range(13..=20);
        assert_eq!(high, low + 10);
        let low: i16 = first.range(-7..5);
        let high: i16 = second.range(-20..-8);
        assert_eq!(high, low - 13);
    }
    assert_eq!(first.random::<u64>(), second.random::<u64>());
}

#[test]
fn iter_gives_the_values_of_successive_draws() {
    let mut first = SmallRng::from_seed(5);
    let mut second = SmallRng::from_seed(5);
    let mut values = first.iter::<u32>();
    for _ in 0..5 {
        assert_eq!(values.next(), Some(second.random::<u32>()));
    }
    assert_eq!(first.random::<u64>(), second.random::<u64>());
}

#[test]
fn shuffle_reaches_every_arrangement_about_equally() {
    let mut counts = [0u32; 6];
    let arrangements = [[0, 1, 2], [0, 2, 1], [1, 0, 2], [1, 2, 0], [2, 0, 1], [2, 1, 0]];
    let mut rng = SmallRng::from_seed(11);
    for _ in 0..6000 {
        let mut items = [0u8, 1, 2];
        rng.shuffle(&mut items);
        let at = arrangements.iter().position(|a| *a == items).unwrap();
        counts[at] += 1;
    }
    for count in counts {
        assert!(count > 850 && count < 1150, "{:?}", counts);
    }
}
