//! Ranges of integers as the generators take them: a first and a last
//! value, both included, built from any of Rust's range expressions.
use vstd::prelude::*;

verus! {

/// An integer type whose values can bound a range.
pub trait RangeValue: Copy + Sized {
    /// The value as a mathematical integer.
    spec fn spec_int(self) -> int;

    /// The smallest value of the type.
    spec fn spec_min() -> int;

    /// The largest value of the type.
    spec fn spec_max() -> int;

    fn min_value() -> (r: Self)
        ensures
            r.spec_int() == Self::spec_min(),
    ;

    fn max_value() -> (r: Self)
        ensures
            r.spec_int() == Self::spec_max(),
    ;

    /// The value just below `self`.
    fn predecessor(self) -> (r: Self)
        requires
            self.spec_int() > Self::spec_min(),
        ensures
            r.spec_int() == self.spec_int() - 1,
    ;
}

/// A range of values from `start` to `end_inclusive`, both included.
pub struct GenerateRange<T> {
    pub start: T,
    pub end_inclusive: T,
}

/// A value that describes a range of `T`: the first and the last value in it.
pub trait IntoGenerateRange<T: RangeValue>: Sized {
    /// Whether the description can be turned into a first and a last value
    /// (a half-open range must end above the smallest value of the type).
    spec fn spec_convertible(&self) -> bool;

    /// The first value of the range.
    spec fn spec_start(&self) -> int;

    /// The last value of the range.
    spec fn spec_end_inclusive(&self) -> int;

    fn into_generate_range(self) -> (r: GenerateRange<T>)
        requires
            self.spec_convertible(),
        ensures
            r.start.spec_int() == self.spec_start(),
            r.end_inclusive.spec_int() == self.spec_end_inclusive(),
    ;
}

/// `core::ops::RangeTo` (`..end`), with its public field `end` visible.
#[verifier::external_type_specification]
#[verifier::reject_recursive_types(Idx)]
pub struct ExRangeTo<Idx>(core::ops::RangeTo<Idx>);

/// `core::ops::RangeFrom` (`start..`), with its public field `start` visible.
#[verifier::external_type_specification]
#[verifier::reject_recursive_types(Idx)]
pub struct ExRangeFrom<Idx>(core::ops::RangeFrom<Idx>);

/// `core::ops::RangeToInclusive` (`..=end`), with its public field `end`
/// visible.
#[verifier::external_type_specification]
#[verifier::reject_recursive_types(Idx)]
pub struct ExRangeToInclusive<Idx>(core::ops::RangeToInclusive<Idx>);

/// `core::ops::RangeFull` (`..`), which holds nothing.
#[verifier::external_type_specification]
#[verifier::external_body]
pub struct ExRangeFull(core::ops::RangeFull);

/// `RangeInclusive::into_inner` hands back the range's start and end as they
/// were given to it; this is what its documentation states.
pub assume_specification<Idx>[ core::ops::RangeInclusive::<Idx>::into_inner ](
    range: core::ops::RangeInclusive<Idx>,
) -> (r: (Idx, Idx))
    ensures
        r.0 == range@.start,
        r.1 == range@.end,
;

impl<T: RangeValue> IntoGenerateRange<T> for GenerateRange<T> {
    open spec fn spec_convertible(&self) -> bool {
        true
    }

    open spec fn spec_start(&self) -> int {
        self.start.spec_int()
    }

    open spec fn spec_end_inclusive(&self) -> int {
        self.end_inclusive.spec_int()
    }

    fn into_generate_range(self) -> (r: GenerateRange<T>) {
        self
    }
}

/// `start..end`: every value from `start` up to, but not including, `end`.
impl<T: RangeValue> IntoGenerateRange<T> for core::ops::Range<T> {
    open spec fn spec_convertible(&self) -> bool {
        self.end.spec_int() > T::spec_min()
    }

    open spec fn spec_start(&self) -> int {
        self.start.spec_int()
    }

    open spec fn spec_end_inclusive(&self) -> int {
        self.end.spec_int() - 1
    }

    fn into_generate_range(self) -> (r: GenerateRange<T>) {
        GenerateRange { start: self.start, end_inclusive: self.end.predecessor() }
    }
}

/// `start..=end`: every value from `start` to `end`.
impl<T: RangeValue> IntoGenerateRange<T> for core::ops::RangeInclusive<T> {
    open spec fn spec_convertible(&self) -> bool {
        true
    }

    open spec fn spec_start(&self) -> int {
        self@.start.spec_int()
    }

    open spec fn spec_end_inclusive(&self) -> int {
        self@.end.spec_int()
    }

    fn into_generate_range(self) -> (r: GenerateRange<T>) {
        let (start, end_inclusive) = self.into_inner();
        GenerateRange { start, end_inclusive }
    }
}

/// `..`: every value of the type.
impl<T: RangeValue> IntoGenerateRange<T> for core::ops::RangeFull {
    open spec fn spec_convertible(&self) -> bool {
        true
    }

    open spec fn spec_start(&self) -> int {
        T::spec_min()
    }

    open spec fn spec_end_inclusive(&self) -> int {
        T::spec_max()
    }

    fn into_generate_range(self) -> (r: GenerateRange<T>) {
        GenerateRange { start: T::min_value(), end_inclusive: T::max_value() }
    }
}

/// `..end`: every value below `end`.
impl<T: RangeValue> IntoGenerateRange<T> for core::ops::RangeTo<T> {
    open spec fn spec_convertible(&self) -> bool {
        self.end.spec_int() > T::spec_min()
    }

    open spec fn spec_start(&self) -> int {
        T::spec_min()
    }

    open spec fn spec_end_inclusive(&self) -> int {
        self.end.spec_int() - 1
    }

    fn into_generate_range(self) -> (r: GenerateRange<T>) {
        GenerateRange { start: T::min_value(), end_inclusive: self.end.predecessor() }
    }
}

/// `..=end`: every value up to `end`.
impl<T: RangeValue> IntoGenerateRange<T> for core::ops::RangeToInclusive<T> {
    open spec fn spec_convertible(&self) -> bool {
        true
    }

    open spec fn spec_start(&self) -> int {
        T::spec_min()
    }

    open spec fn spec_end_inclusive(&self) -> int {
        self.end.spec_int()
    }

    fn into_generate_range(self) -> (r: GenerateRange<T>) {
        GenerateRange { start: T::min_value(), end_inclusive: self.end }
    }
}

/// `start..`: every value from `start` up.
impl<T: RangeValue> IntoGenerateRange<T> for core::ops::RangeFrom<T> {
    open spec fn spec_convertible(&self) -> bool {
        true
    }

    open spec fn spec_start(&self) -> int {
        self.start.spec_int()
    }

    open spec fn spec_end_inclusive(&self) -> int {
        T::spec_max()
    }

    fn into_generate_range(self) -> (r: GenerateRange<T>) {
        GenerateRange { start: self.start, end_inclusive: T::max_value() }
    }
}

/// The values a range describes, `x` standing for any integer: for each of
/// Rust's range expressions, the first and last value are those that make its
/// members exactly the integers it denotes. A half-open range (`a..b`, `..b`)
/// leaves out its end, an inclusive one (`a..=b`, `..=b`) keeps it, and an
/// open side reaches the type's smallest or largest value.
pub proof fn lemma_range_members<T: RangeValue>(
    range: core::ops::Range<T>,
    inclusive: core::ops::RangeInclusive<T>,
    to: core::ops::RangeTo<T>,
    to_inclusive: core::ops::RangeToInclusive<T>,
    from: core::ops::RangeFrom<T>,
    full: core::ops::RangeFull,
    given: GenerateRange<T>,
    x: int,
)
    ensures
        (IntoGenerateRange::<T>::spec_start(&range) <= x <= IntoGenerateRange::<T>::spec_end_inclusive(&range))
            <==> (range.start.spec_int() <= x < range.end.spec_int()),
        (IntoGenerateRange::<T>::spec_start(&inclusive) <= x <= IntoGenerateRange::<T>::spec_end_inclusive(&inclusive))
            <==> (inclusive@.start.spec_int() <= x <= inclusive@.end.spec_int()),
        (IntoGenerateRange::<T>::spec_start(&to) <= x <= IntoGenerateRange::<T>::spec_end_inclusive(&to))
            <==> (T::spec_min() <= x < to.end.spec_int()),
        (IntoGenerateRange::<T>::spec_start(&to_inclusive) <= x <= IntoGenerateRange::<T>::spec_end_inclusive(&to_inclusive))
            <==> (T::spec_min() <= x <= to_inclusive.end.spec_int()),
        (IntoGenerateRange::<T>::spec_start(&from) <= x <= IntoGenerateRange::<T>::spec_end_inclusive(&from))
            <==> (from.start.spec_int() <= x <= T::spec_max()),
        (IntoGenerateRange::<T>::spec_start(&full) <= x <= IntoGenerateRange::<T>::spec_end_inclusive(&full))
            <==> (T::spec_min() <= x <= T::spec_max()),
        (IntoGenerateRange::<T>::spec_start(&given) <= x <= IntoGenerateRange::<T>::spec_end_inclusive(&given))
            <==> (given.start.spec_int() <= x <= given.end_inclusive.spec_int()),
{
}

/// A half-open range with a value below its end can be turned into a first
/// and last value, and one without cannot; the other forms always can.
pub proof fn lemma_range_convertible<T: RangeValue>(
    range: core::ops::Range<T>,
    to: core::ops::RangeTo<T>,
)
    ensures
        IntoGenerateRange::<T>::spec_convertible(&range) <==> range.end.spec_int() > T::spec_min(),
        IntoGenerateRange::<T>::spec_convertible(&to) <==> to.end.spec_int() > T::spec_min(),
{
}

impl RangeValue for u8 {
    open spec fn spec_int(self) -> int {
        self as int
    }

    open spec fn spec_min() -> int {
        u8::MIN as int
    }

    open spec fn spec_max() -> int {
        u8::MAX as int
    }

    fn min_value() -> (r: u8) {
        u8::MIN
    }

    fn max_value() -> (r: u8) {
        u8::MAX
    }

    fn predecessor(self) -> (r: u8) {
        self - 1
    }
}

impl RangeValue for i8 {
    open spec fn spec_int(self) -> int {
        self as int
    }

    open spec fn spec_min() -> int {
        i8::MIN as int
    }

    open spec fn spec_max() -> int {
        i8::MAX as int
    }

    fn min_value() -> (r: i8) {
        i8::MIN
    }

    fn max_value() -> (r: i8) {
        i8::MAX
    }

    fn predecessor(self) -> (r: i8) {
        self - 1
    }
}

impl RangeValue for u16 {
    open spec fn spec_int(self) -> int {
        self as int
    }

    open spec fn spec_min() -> int {
        u16::MIN as int
    }

    open spec fn spec_max() -> int {
        u16::MAX as int
    }

    fn min_value() -> (r: u16) {
        u16::MIN
    }

    fn max_value() -> (r: u16) {
        u16::MAX
    }

    fn predecessor(self) -> (r: u16) {
        self - 1
    }
}

impl RangeValue for i16 {
    open spec fn spec_int(self) -> int {
        self as int
    }

    open spec fn spec_min() -> int {
        i16::MIN as int
    }

    open spec fn spec_max() -> int {
        i16::MAX as int
    }

    fn min_value() -> (r: i16) {
        i16::MIN
    }

    fn max_value() -> (r: i16) {
        i16::MAX
    }

    fn predecessor(self) -> (r: i16) {
        self - 1
    }
}

impl RangeValue for u32 {
    open spec fn spec_int(self) -> int {
        self as int
    }

    open spec fn spec_min() -> int {
        u32::MIN as int
    }

    open spec fn spec_max() -> int {
        u32::MAX as int
    }

    fn min_value() -> (r: u32) {
        u32::MIN
    }

    fn max_value() -> (r: u32) {
        u32::MAX
    }

    fn predecessor(self) -> (r: u32) {
        self - 1
    }
}

impl RangeValue for i32 {
    open spec fn spec_int(self) -> int {
        self as int
    }

    open spec fn spec_min() -> int {
        i32::MIN as int
    }

    open spec fn spec_max() -> int {
        i32::MAX as int
    }

    fn min_value() -> (r: i32) {
        i32::MIN
    }

    fn max_value() -> (r: i32) {
        i32::MAX
    }

    fn predecessor(self) -> (r: i32) {
        self - 1
    }
}

impl RangeValue for u64 {
    open spec fn spec_int(self) -> int {
        self as int
    }

    open spec fn spec_min() -> int {
        u64::MIN as int
    }

    open spec fn spec_max() -> int {
        u64::MAX as int
    }

    fn min_value() -> (r: u64) {
        u64::MIN
    }

    fn max_value() -> (r: u64) {
        u64::MAX
    }

    fn predecessor(self) -> (r: u64) {
        self - 1
    }
}

impl RangeValue for i64 {
    open spec fn spec_int(self) -> int {
        self as int
    }

    open spec fn spec_min() -> int {
        i64::MIN as int
    }

    open spec fn spec_max() -> int {
        i64::MAX as int
    }

    fn min_value() -> (r: i64) {
        i64::MIN
    }

    fn max_value() -> (r: i64) {
        i64::MAX
    }

    fn predecessor(self) -> (r: i64) {
        self - 1
    }
}

impl RangeValue for u128 {
    open spec fn spec_int(self) -> int {
        self as int
    }

    open spec fn spec_min() -> int {
        u128::MIN as int
    }

    open spec fn spec_max() -> int {
        u128::MAX as int
    }

    fn min_value() -> (r: u128) {
        u128::MIN
    }

    fn max_value() -> (r: u128) {
        u128::MAX
    }

    fn predecessor(self) -> (r: u128) {
        self - 1
    }
}

impl RangeValue for i128 {
    open spec fn spec_int(self) -> int {
        self as int
    }

    open spec fn spec_min() -> int {
        i128::MIN as int
    }

    open spec fn spec_max() -> int {
        i128::MAX as int
    }

    fn min_value() -> (r: i128) {
        i128::MIN
    }

    fn max_value() -> (r: i128) {
        i128::MAX
    }

    fn predecessor(self) -> (r: i128) {
        self - 1
    }
}

impl RangeValue for usize {
    open spec fn spec_int(self) -> int {
        self as int
    }

    open spec fn spec_min() -> int {
        usize::MIN as int
    }

    open spec fn spec_max() -> int {
        usize::MAX as int
    }

    fn min_value() -> (r: usize) {
        usize::MIN
    }

    fn max_value() -> (r: usize) {
        usize::MAX
    }

    fn predecessor(self) -> (r: usize) {
        self - 1
    }
}

impl RangeValue for isize {
    open spec fn spec_int(self) -> int {
        self as int
    }

    open spec fn spec_min() -> int {
        isize::MIN as int
    }

    open spec fn spec_max() -> int {
        isize::MAX as int
    }

    fn min_value() -> (r: isize) {
        isize::MIN
    }

    fn max_value() -> (r: isize) {
        isize::MAX
    }

    fn predecessor(self) -> (r: isize) {
        self - 1
    }
}

} // verus!
