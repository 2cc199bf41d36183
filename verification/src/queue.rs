//! A first-in, first-out queue for any item type, the natural "watch
//! next" list.

use vstd::prelude::*;
use std::collections::VecDeque;

verus! {

/// A FIFO queue: items leave in the order they arrived.
#[derive(Debug, Clone)]
pub struct MovieQueue<T> {
    items: VecDeque<T>,
}

impl<T> MovieQueue<T> {
    /// The queued items, front first.
    pub closed spec fn items_spec(&self) -> Seq<T> {
        self.items@
    }

    /// An empty queue.
    pub fn new() -> (r: MovieQueue<T>)
        ensures
            r.items_spec() == Seq::<T>::empty(),
    {
        MovieQueue { items: VecDeque::new() }
    }

    /// Adds an item at the back.
    pub fn enqueue(&mut self, item: T)
        ensures
            final(self).items_spec() == old(self).items_spec().push(item),
    {
        self.items.push_back(item);
    }

    /// Removes and returns the front item, or nothing when the queue is
    /// empty.
    pub fn dequeue(&mut self) -> (r: Option<T>)
        ensures
            old(self).items_spec().len() == 0 ==> r is None && final(self).items_spec()
                == old(self).items_spec(),
            old(self).items_spec().len() > 0 ==> r == Some(old(self).items_spec()[0])
                && final(self).items_spec() == old(self).items_spec().drop_first(),
    {
        self.items.pop_front()
    }

    /// The front item without removing it, or nothing when the queue is
    /// empty.
    pub fn peek(&self) -> (r: Option<&T>)
        ensures
            self.items_spec().len() == 0 ==> r is None,
            self.items_spec().len() > 0 ==> (r matches Some(item) && *item
                == self.items_spec()[0]),
    {
        if self.items.len() == 0 {
            None
        } else {
            Some(&self.items[0])
        }
    }

    /// How many items are queued.
    pub fn len(&self) -> (r: usize)
        ensures
            r == self.items_spec().len(),
    {
        self.items.len()
    }

    /// True exactly when nothing is queued.
    pub fn is_empty(&self) -> (r: bool)
        ensures
            r == (self.items_spec().len() == 0),
    {
        self.items.len() == 0
    }

    /// The queued items as references, front first; the queue can be
    /// used again afterwards.
    pub fn iter(&self) -> (r: Vec<&T>)
        ensures
            r@.len() == self.items_spec().len(),
            forall|i: int| 0 <= i < r@.len() ==> *(#[trigger] r@[i]) == self.items_spec()[i],
    {
        let n = self.items.len();
        let mut out: Vec<&T> = Vec::new();
        let mut i: usize = 0;
        while i < n
            invariant
                n == self.items_spec().len(),
                0 <= i <= n,
                out@.len() == i,
                forall|j: int| 0 <= j < i ==> *(#[trigger] out@[j]) == self.items_spec()[j],
            decreases n - i,
        {
            out.push(&self.items[i]);
            i = i + 1;
        }
        out
    }
}

} // verus!
