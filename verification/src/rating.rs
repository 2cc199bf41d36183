//! Generic ratings: a value on a chosen scale, and the pairing of any
//! item with a rating.

use vstd::prelude::*;
use vstd::std_specs::cmp::PartialOrdSpec;

verus! {

/// How a rating value is meant to be read.
#[derive(Debug, Clone, Copy, PartialEq, Eq)]
pub enum RatingScale {
    Stars,
    Numeric,
}

/// A rating holding any copyable, comparable value.
#[derive(Debug, Clone, Copy, PartialEq)]
pub struct Rating<T: Copy + PartialOrd> {
    pub value: T,
    pub scale: RatingScale,
}

impl<T: Copy + PartialOrd> Rating<T> {
    /// A rating of the given value on the given scale.
    pub fn new(value: T, scale: RatingScale) -> (r: Rating<T>)
        ensures
            r.value == value,
            r.scale == scale,
    {
        Rating { value, scale }
    }

    /// True exactly when this rating's value compares greater than the
    /// other's, for value types whose comparison obeys its
    /// specification.
    pub fn is_higher_than(&self, other: &Rating<T>) -> (r: bool)
        ensures
            T::obeys_partial_cmp_spec() ==> r == (self.value.partial_cmp_spec(&other.value)
                == Some(core::cmp::Ordering::Greater)),
    {
        self.value > other.value
    }

    /// The rated value.
    pub fn value(&self) -> (r: T)
        ensures
            r == self.value,
    {
        self.value
    }
}

/// Any item paired with a rating of it.
#[derive(Debug, Clone, PartialEq)]
pub struct Rated<T, R: Copy + PartialOrd> {
    pub item: T,
    pub rating: Rating<R>,
}

impl<T, R: Copy + PartialOrd> Rated<T, R> {
    /// Pairs an item with its rating.
    pub fn new(item: T, rating: Rating<R>) -> (r: Rated<T, R>)
        ensures
            r.item == item,
            r.rating == rating,
    {
        Rated { item, rating }
    }
}

} // verus!
