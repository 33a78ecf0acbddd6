use smallrand::{Rng, RngExt, SplitMix, Xoshiro256pp};

struct CountingRng(pub u64);

impl CountingRng {
    fn new() -> Self {
        // Start near the max to ensure that the uniformity tests
        // hit the area where numbers must be discarded:
        Self(18446744073709550681)
    }
}

impl Rng for CountingRng {
    fn spec_next_u32(&self) -> (u32, Self) {
        (self.0 as u32, CountingRng(self.0.wrapping_add(1)))
    }

    fn spec_next_u64(&self) -> (u64, Self) {
        (self.0, CountingRng(self.0.wrapping_add(1)))
    }

    fn random_u32(&mut self) -> u32 {
        self.random_u64() as u32
    }

    fn random_u64(&mut self) -> u64 {
        let result = self.0;
        self.0 = self.0.wrapping_add(1);
        result
    }
}

#[test]
fn test_range_u8_is_uniform() {
    const START: u8 = 13;
    const END: u8 = 42;
    const LEN: usize = (END - START) as usize;

    // u8 ranges are generated from u16 random values.
    // If we start the CountingRng at 0 and draw twice as many range values
    // as the Lemire algorithm can output for all possible u16 values,
    // then we will have tested all possible outcomes, and the distribution
    // should be uniform:
    let mut rng = CountingRng(0);
    let iterations: usize = 2 * ((1 << 16) / LEN) * LEN;

    let mut count: [usize; LEN] = [0; LEN];
    for _i in 0..iterations {
        let value = rng.range(START..END);
        assert!(value >= START);
        assert!(value < END);
        let inx = (value - START) as usize;
        count[inx] += 1;
    }
    for i in 0..LEN {
        assert_eq!(count[0], count[i]);
    }
}

#[test]
fn test_range_i8_is_uniform() {
    const START: i8 = -127;
    const END: i8 = 126;
    const LEN: usize = ((END as isize) - (START as isize)) as usize;

    // i8 ranges are generated from u16 random values.
    // If we start the CountingRng at 0 and draw twice as many range values
    // as the Lemire algorithm can output for all possible u16 values,
    // then we will have tested all possible outcomes, and the distribution
    // should be uniform:
    let mut rng = CountingRng(0);
    let iterations: usize = 2 * ((1 << 16) / LEN) * LEN;

    let mut count: [usize; LEN] = [0; LEN];
    for _ in 0..iterations {
        let value = rng.range(START..END);
        assert!(value >= START);
        assert!(value < END);
        let inx = (value as isize).wrapping_sub(START as isize) as usize;
        count[inx] += 1;
    }
    for i in 0..LEN {
        assert_eq!(count[0], count[i]);
    }
}

#[test]
fn test_unbounded_range_u8() {
    let mut rng = CountingRng::new();
    let mut count: [u8; 256] = [0; 256];
    for _ in 0..100 * 256 {
        let value: u8 = rng.range(..);
        count[value as usize] += 1;
    }
    for i in 0..256 {
        assert_eq!(count[0], count[i], "failed for {i}");
    }
}

#[test]
fn test_range_boundaries() {
    let mut rng = CountingRng::new();
    let _: u8 = rng.range(0..=255);
    let _: u8 = rng.range(..=255);
    assert_eq!(255u8, rng.range(255u8..=255));
    assert_eq!(0u8, rng.range(0u8..=0));
}

struct CountingRng128 {
    next: u128,
    high: bool,
}

impl CountingRng128 {
    fn new() -> Self {
        // Start near the max to ensure that the uniformity tests
        // hit the area where numbers must be discarded:
        Self {
            next: u128::MAX - 100,
            high: true,
        }
    }
}

impl Rng for CountingRng128 {
    fn spec_next_u32(&self) -> (u32, Self) {
        unreachable!("the u128 range draws u64 values only")
    }

    fn spec_next_u64(&self) -> (u64, Self) {
        if self.high {
            ((self.next >> 64) as u64, CountingRng128 { next: self.next, high: false })
        } else {
            (self.next as u64, CountingRng128 { next: self.next.wrapping_add(1), high: true })
        }
    }

    fn random_u32(&mut self) -> u32 {
        unreachable!("the u128 range draws u64 values only")
    }

    fn random_u64(&mut self) -> u64 {
        let random = if self.high {
            (self.next >> 64) as u64
        } else {
            let low = self.next as u64;
            self.next = self.next.wrapping_add(1);
            low
        };
        self.high = !self.high;
        random
    }
}

#[test]
fn test_range_u128_is_uniform() {
    let mut rng = CountingRng128::new();
    const START: u128 = 13;
    const END: u128 = 42;
    const LEN: usize = (END - START) as usize;
    let mut count: [u8; LEN] = [0; LEN];
    for _ in 0..100 * LEN {
        let value = rng.range(START..END);
        assert!(value >= START);
        assert!(value < END);
        let inx = (value - START) as usize;
        count[inx] += 1;
    }
    for i in 0..LEN {
        assert_eq!(count[0], count[i]);
    }
}

#[test]
fn test_shuffle() {
    let mut rng = Xoshiro256pp::from_entropy(&mut SplitMix::new(42));
    let mut numbers = vec![
        1, 2, 3, 4, 5, 6, 7, 8, 9, 10, 11, 12, 13, 14, 15, 16, 17, 18, 19, 20,
    ];
    rng.shuffle(&mut numbers);
    assert_eq!(
        numbers,
        vec![6, 8, 3, 4, 12, 10, 2, 7, 20, 11, 1, 16, 15, 13, 9, 14, 18, 5, 17, 19]
    );
}

#[test]
fn test_shuffle_empty_slice() {
    let mut rng = CountingRng::new();
    let mut numbers: Vec<u8> = vec![];
    rng.shuffle(&mut numbers);
    assert_eq!(numbers, vec![]);
}
