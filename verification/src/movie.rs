//! Movies and a generic collection that can hold any item type.

use vstd::prelude::*;
use crate::digits::dec_rep;
use crate::digits::u128_to_decimal;
use vstd::string::StringExecFns;

verus! {

/// A comedy movie: title, director, year of release and lead actor.
#[derive(Debug, Clone, PartialEq)]
pub struct Movie {
    pub title: String,
    pub director: String,
    pub year: u16,
    pub lead_actor: String,
}

impl Movie {
    /// A movie with the given fields.
    pub fn new(title: String, director: String, year: u16, lead_actor: String) -> (r: Movie)
        ensures
            r == (Movie { title, director, year, lead_actor }),
    {
        Movie { title, director, year, lead_actor }
    }

    /// One banner line presenting the movie.
    pub fn display_string(&self) -> (r: String)
        ensures
            r@ == "🎬 "@ + self.title@ + " ("@ + dec_rep(self.year as int) + "), directed by "@
                + self.director@ + ", starring "@ + self.lead_actor@ + " 🎬"@,
    {
        let mut r = String::from_str("🎬 ");
        r.append(self.title.as_str());
        r.append(" (");
        r.append(u128_to_decimal(self.year as u128).as_str());
        r.append("), directed by ");
        r.append(self.director.as_str());
        r.append(", starring ");
        r.append(self.lead_actor.as_str());
        r.append(" 🎬");
        r
    }
}

/// A generic collection of items in insertion order.
#[derive(Debug, Clone)]
pub struct MovieCollection<T> {
    items: Vec<T>,
}

impl<T> MovieCollection<T> {
    /// The items, in insertion order.
    pub closed spec fn items_spec(&self) -> Seq<T> {
        self.items@
    }

    /// An empty collection.
    pub fn new() -> (r: MovieCollection<T>)
        ensures
            r.items_spec() == Seq::<T>::empty(),
    {
        MovieCollection { items: Vec::new() }
    }

    /// Appends an item.
    pub fn add(&mut self, item: T)
        ensures
            final(self).items_spec() == old(self).items_spec().push(item),
    {
        self.items.push(item);
    }

    /// How many items the collection holds.
    pub fn len(&self) -> (r: usize)
        ensures
            r == self.items_spec().len(),
    {
        self.items.len()
    }

    /// True exactly when the collection holds nothing.
    pub fn is_empty(&self) -> (r: bool)
        ensures
            r == (self.items_spec().len() == 0),
    {
        self.items.len() == 0
    }
}

} // verus!
