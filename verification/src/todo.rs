//! A todo list: items with monotonically increasing ids, completion by
//! id, and deletion by id.

use vstd::prelude::*;
use crate::digits::{dec_rep, u128_to_decimal};
use vstd::string::StringExecFns;

verus! {

/// One todo entry.
#[derive(Debug, Clone, PartialEq)]
pub struct TodoItem {
    pub id: usize,
    pub title: String,
    pub completed: bool,
}

/// A list of todo entries; the next id to hand out exceeds every id in
/// the list, so ids never repeat.
#[derive(Debug)]
pub struct TodoList {
    items: Vec<TodoItem>,
    next_id: usize,
}

/// The message reported when no entry carries the requested id.
pub open spec fn missing_id_message(id: int) -> Seq<char> {
    "Todo Item with ID "@ + dec_rep(id) + " not found"@
}

fn missing_id_text(id: usize) -> (r: String)
    ensures
        r@ == missing_id_message(id as int),
{
    let mut r = String::from_str("Todo Item with ID ");
    r.append(u128_to_decimal(id as u128).as_str());
    r.append(" not found");
    r
}

impl TodoList {
    /// The entries, in insertion order.
    pub closed spec fn items_spec(&self) -> Seq<TodoItem> {
        self.items@
    }

    /// The id the next added entry will receive.
    pub closed spec fn next_id_spec(&self) -> int {
        self.next_id as int
    }

    /// Every stored id is below the next id to hand out.
    pub open spec fn wf(&self) -> bool {
        forall|i: int|
            0 <= i < self.items_spec().len() ==> (#[trigger] self.items_spec()[i]).id
                < self.next_id_spec()
    }

    /// An empty list whose first entry will get id 1.
    pub fn new() -> (r: TodoList)
        ensures
            r.wf(),
            r.items_spec() == Seq::<TodoItem>::empty(),
            r.next_id_spec() == 1,
    {
        TodoList { items: Vec::new(), next_id: 1 }
    }

    /// Appends an uncompleted entry under the next id.
    pub fn add(&mut self, title: String)
        requires
            old(self).wf(),
            old(self).next_id_spec() < usize::MAX,
        ensures
            final(self).wf(),
            final(self).items_spec() == old(self).items_spec().push(
                TodoItem { id: old(self).next_id_spec() as usize, title, completed: false },
            ),
            final(self).next_id_spec() == old(self).next_id_spec() + 1,
    {
        let item = TodoItem { id: self.next_id, title, completed: false };
        self.items.push(item);
        self.next_id = self.next_id + 1;
        proof {
            assert(self.items@ == old(self).items@.push(item));
            assert(item.id < self.next_id);
            assert forall|i: int|
                0 <= i < self.items_spec().len() implies (#[trigger] self.items_spec()[i]).id
                < self.next_id_spec() by {
                if i < self.items_spec().len() - 1 {
                    assert(self.items_spec()[i] == old(self).items_spec()[i]);
                    assert(old(self).items_spec()[i].id < old(self).next_id_spec());
                } else {
                    assert(self.items_spec()[i] == item);
                }
            }
        }
    }

    /// The entries, in insertion order.
    pub fn list(&self) -> (r: &Vec<TodoItem>)
        ensures
            r@ == self.items_spec(),
    {
        &self.items
    }

    /// Marks the entry with the given id completed; reports the id when
    /// no entry carries it, leaving the list unchanged.
    pub fn complete(&mut self, id: usize) -> (r: Result<(), String>)
        requires
            old(self).wf(),
        ensures
            final(self).wf(),
            final(self).next_id_spec() == old(self).next_id_spec(),
            r is Ok <==> exists|i: int|
                0 <= i < old(self).items_spec().len() && (#[trigger] old(self).items_spec()[i]).id
                    == id,
            r is Ok ==> exists|i: int|
                {
                    &&& 0 <= i < old(self).items_spec().len()
                    &&& (#[trigger] old(self).items_spec()[i]).id == id
                    &&& final(self).items_spec() == old(self).items_spec().update(
                        i,
                        TodoItem {
                            id,
                            title: old(self).items_spec()[i].title,
                            completed: true,
                        },
                    )
                },
            r matches Err(m) ==> m@ == missing_id_message(id as int) && final(self).items_spec()
                == old(self).items_spec(),
    {
        let n = self.items.len();
        let mut i: usize = 0;
        while i < n
            invariant
                *self == *old(self),
                old(self).wf(),
                n == self.items@.len(),
                0 <= i <= n,
                forall|j: int| 0 <= j < i ==> (#[trigger] self.items@[j]).id != id,
            decreases n - i,
        {
            if self.items[i].id == id {
                proof {
                    assert((#[trigger] old(self).items_spec()[i as int]).id == id);
                }
                let title = self.items[i].title.clone();
                self.items.set(i, TodoItem { id, title, completed: true });
                proof {
                    assert(self.items@ == old(self).items@.update(
                        i as int,
                        TodoItem { id, title: old(self).items@[i as int].title, completed: true },
                    ));
                    assert forall|j: int|
                        0 <= j < self.items_spec().len() implies (#[trigger] self.items_spec()[j]).id
                        < self.next_id_spec() by {
                        if j != i {
                            assert(self.items_spec()[j] == old(self).items_spec()[j]);
                            assert(old(self).items_spec()[j].id < old(self).next_id_spec());
                        } else {
                            assert(old(self).items_spec()[j].id < old(self).next_id_spec());
                        }
                    }
                }
                return Ok(());
            }
            i = i + 1;
        }
        Err(missing_id_text(id))
    }

    /// Removes the entry with the given id; reports the id when no
    /// entry carries it, leaving the list unchanged.
    pub fn delete(&mut self, id: usize) -> (r: Result<(), String>)
        requires
            old(self).wf(),
        ensures
            final(self).wf(),
            final(self).next_id_spec() == old(self).next_id_spec(),
            r is Ok <==> exists|i: int|
                0 <= i < old(self).items_spec().len() && (#[trigger] old(self).items_spec()[i]).id
                    == id,
            r is Ok ==> exists|i: int|
                {
                    &&& 0 <= i < old(self).items_spec().len()
                    &&& (#[trigger] old(self).items_spec()[i]).id == id
                    &&& final(self).items_spec() == old(self).items_spec().remove(i)
                },
            r matches Err(m) ==> m@ == missing_id_message(id as int) && final(self).items_spec()
                == old(self).items_spec(),
    {
        let n = self.items.len();
        let mut i: usize = 0;
        while i < n
            invariant
                *self == *old(self),
                old(self).wf(),
                n == self.items@.len(),
                0 <= i <= n,
                forall|j: int| 0 <= j < i ==> (#[trigger] self.items@[j]).id != id,
            decreases n - i,
        {
            if self.items[i].id == id {
                proof {
                    assert((#[trigger] old(self).items_spec()[i as int]).id == id);
                }
                self.items.remove(i);
                proof {
                    assert(self.items@ == old(self).items@.remove(i as int));
                    assert forall|j: int|
                        0 <= j < self.items_spec().len() implies (#[trigger] self.items_spec()[j]).id
                        < self.next_id_spec() by {
                        if j < i {
                            assert(self.items_spec()[j] == old(self).items_spec()[j]);
                            assert(old(self).items_spec()[j].id < old(self).next_id_spec());
                        } else {
                            assert(self.items_spec()[j] == old(self).items_spec()[j + 1]);
                            assert(old(self).items_spec()[j + 1].id < old(self).next_id_spec());
                        }
                    }
                }
                return Ok(());
            }
            i = i + 1;
        }
        Err(missing_id_text(id))
    }
}

} // verus!
