//! The integers that address a grid along one axis.
use vstd::prelude::*;

verus! {

/// An integer type that can serve as a coordinate: a contiguous range of
/// integers that can be compared, stepped through and offset.
pub trait Coordinate: Copy + Sized {
    /// The integer this coordinate stands for.
    spec fn as_int(self) -> int;

    /// The coordinate that stands for `i`.
    spec fn of_int(i: int) -> Self;

    /// The least integer the type can hold.
    spec fn lowest() -> int;

    /// The greatest integer the type can hold.
    spec fn highest() -> int;

    /// A coordinate lies within the type's bounds and is determined by its
    /// integer.
    proof fn lemma_as_int(self)
        ensures
            Self::lowest() <= self.as_int() <= Self::highest(),
            Self::of_int(self.as_int()) == self,
    ;

    /// Every integer within the type's bounds is a coordinate.
    proof fn lemma_of_int(i: int)
        requires
            Self::lowest() <= i <= Self::highest(),
        ensures
            Self::of_int(i).as_int() == i,
    ;

    /// Whether `self` comes before `other`.
    fn less(self, other: Self) -> (b: bool)
        ensures
            b == (self.as_int() < other.as_int()),
    ;

    /// The next coordinate.
    fn successor(self) -> (r: Self)
        requires
            self.as_int() < Self::highest(),
        ensures
            r.as_int() == self.as_int() + 1,
    ;

    /// `self` moved by `by`.
    fn shifted(self, by: Self) -> (r: Self)
        requires
            Self::lowest() <= self.as_int() + by.as_int() <= Self::highest(),
        ensures
            r.as_int() == self.as_int() + by.as_int(),
    ;

    /// `self` moved by `by`, if that is a coordinate.
    fn checked_shifted(self, by: Self) -> (r: Option<Self>)
        ensures
            match r {
                Some(moved) => moved.as_int() == self.as_int() + by.as_int(),
                None => !(Self::lowest() <= self.as_int() + by.as_int() <= Self::highest()),
            },
    ;

    /// How far `end` lies after `self`.
    fn distance(self, end: Self) -> (n: u64)
        requires
            self.as_int() <= end.as_int(),
        ensures
            n == end.as_int() - self.as_int(),
    ;
}

impl Coordinate for usize {
    open spec fn as_int(self) -> int {
        self as int
    }

    open spec fn of_int(i: int) -> Self {
        i as usize
    }

    open spec fn lowest() -> int {
        0
    }

    open spec fn highest() -> int {
        usize::MAX as int
    }

    proof fn lemma_as_int(self) {
    }

    proof fn lemma_of_int(i: int) {
    }

    fn less(self, other: Self) -> (b: bool) {
        self < other
    }

    fn successor(self) -> (r: Self) {
        self + 1
    }

    fn shifted(self, by: Self) -> (r: Self) {
        self + by
    }

    fn checked_shifted(self, by: Self) -> (r: Option<Self>) {
        self.checked_add(by)
    }

    fn distance(self, end: Self) -> (n: u64) {
        (end - self) as u64
    }
}

impl Coordinate for i32 {
    open spec fn as_int(self) -> int {
        self as int
    }

    open spec fn of_int(i: int) -> Self {
        i as i32
    }

    open spec fn lowest() -> int {
        i32::MIN as int
    }

    open spec fn highest() -> int {
        i32::MAX as int
    }

    proof fn lemma_as_int(self) {
    }

    proof fn lemma_of_int(i: int) {
    }

    fn less(self, other: Self) -> (b: bool) {
        self < other
    }

    fn successor(self) -> (r: Self) {
        self + 1
    }

    fn shifted(self, by: Self) -> (r: Self) {
        self + by
    }

    fn checked_shifted(self, by: Self) -> (r: Option<Self>) {
        self.checked_add(by)
    }

    fn distance(self, end: Self) -> (n: u64) {
        (end as i64 - self as i64) as u64
    }
}

} // verus!
