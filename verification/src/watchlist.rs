//! A named watchlist over any item type: predicate search and filter,
//! sorted views, and rating-aware queries.

use vstd::prelude::*;
use vstd::std_specs::cmp::PartialOrdSpec;
use crate::rating::Rated;

verus! {

/// Comparison never answers "greater" when the left element is placed
/// before the right one.
pub open spec fn sorted_ascending<T: PartialOrd>(s: Seq<T>) -> bool {
    forall|k: int|
        0 <= k < s.len() - 1 ==> (#[trigger] s[k].partial_cmp_spec(&s[k + 1])) != Some(
            core::cmp::Ordering::Greater,
        )
}

/// Comparison never answers "greater" when a later element is compared
/// against an earlier one.
pub open spec fn sorted_descending<T: PartialOrd>(s: Seq<T>) -> bool {
    forall|k: int|
        0 <= k < s.len() - 1 ==> (#[trigger] s[k + 1].partial_cmp_spec(&s[k])) != Some(
            core::cmp::Ordering::Greater,
        )
}

/// Every pair of values compares to some answer.
pub open spec fn comparison_total<T: PartialOrd>() -> bool {
    forall|a: T, b: T| (#[trigger] a.partial_cmp_spec(&b)) is Some
}

/// A comparison that answers "greater" one way answers "less" the
/// other way.
pub open spec fn comparison_consistent<T: PartialOrd>() -> bool {
    forall|a: T, b: T|
        (#[trigger] a.partial_cmp_spec(&b)) == Some(core::cmp::Ordering::Greater)
            ==> b.partial_cmp_spec(&a) == Some(core::cmp::Ordering::Less)
}

/// A named list of items in insertion order.
#[derive(Debug, Clone)]
pub struct Watchlist<T> {
    items: Vec<T>,
    name: String,
}

impl<T> Watchlist<T> {
    /// The items, in insertion order.
    pub closed spec fn items_spec(&self) -> Seq<T> {
        self.items@
    }

    /// The list's name.
    pub closed spec fn name_spec(&self) -> Seq<char> {
        self.name@
    }

    /// An empty list with the given name.
    pub fn new(name: String) -> (r: Watchlist<T>)
        ensures
            r.items_spec() == Seq::<T>::empty(),
            r.name_spec() == name@,
    {
        Watchlist { items: Vec::new(), name }
    }

    /// Appends an item.
    pub fn add(&mut self, item: T)
        ensures
            final(self).items_spec() == old(self).items_spec().push(item),
            final(self).name_spec() == old(self).name_spec(),
    {
        self.items.push(item);
    }

    /// How many items the list holds.
    pub fn len(&self) -> (r: usize)
        ensures
            r == self.items_spec().len(),
    {
        self.items.len()
    }

    /// True exactly when the list holds nothing.
    pub fn is_empty(&self) -> (r: bool)
        ensures
            r == (self.items_spec().len() == 0),
    {
        self.items.len() == 0
    }

    /// The list's name.
    pub fn name(&self) -> (r: &str)
        ensures
            r@ == self.name_spec(),
    {
        self.name.as_str()
    }

    /// The first item the predicate accepts, or nothing when it
    /// rejects every item.
    pub fn find_by<F: Fn(&T) -> bool>(&self, predicate: F) -> (r: Option<&T>)
        requires
            forall|i: int|
                0 <= i < self.items_spec().len() ==> predicate.requires(
                    (&(#[trigger] self.items_spec()[i]),),
                ),
        ensures
            match r {
                Some(item) => exists|i: int|
                    {
                        &&& 0 <= i < self.items_spec().len()
                        &&& *item == self.items_spec()[i]
                        &&& predicate.ensures((&(#[trigger] self.items_spec()[i]),), true)
                        &&& forall|j: int|
                            0 <= j < i ==> predicate.ensures(
                                (&(#[trigger] self.items_spec()[j]),),
                                false,
                            )
                    },
                None => forall|i: int|
                    0 <= i < self.items_spec().len() ==> predicate.ensures(
                        (&(#[trigger] self.items_spec()[i]),),
                        false,
                    ),
            },
    {
        let n = self.items.len();
        let mut i: usize = 0;
        while i < n
            invariant
                n == self.items_spec().len(),
                0 <= i <= n,
                forall|j: int|
                    0 <= j < self.items_spec().len() ==> predicate.requires(
                        (&(#[trigger] self.items_spec()[j]),),
                    ),
                forall|j: int|
                    0 <= j < i ==> predicate.ensures((&(#[trigger] self.items_spec()[j]),), false),
            decreases n - i,
        {
            if predicate(&self.items[i]) {
                return Some(&self.items[i]);
            }
            i = i + 1;
        }
        None
    }

    /// References to every item the predicate accepts, in order; every
    /// item left out was rejected.
    pub fn filter_by<F: Fn(&T) -> bool>(&self, predicate: F) -> (r: Vec<&T>)
        requires
            forall|i: int|
                0 <= i < self.items_spec().len() ==> predicate.requires(
                    (&(#[trigger] self.items_spec()[i]),),
                ),
        ensures
            forall|k: int| 0 <= k < r@.len() ==> predicate.ensures(((#[trigger] r@[k]),), true),
            forall|k: int|
                0 <= k < r@.len() ==> self.items_spec().contains(*(#[trigger] r@[k])),
            forall|i: int|
                0 <= i < self.items_spec().len() ==> (predicate.ensures(
                    (&(#[trigger] self.items_spec()[i]),),
                    false,
                ) || exists|k: int| 0 <= k < r@.len() && *(#[trigger] r@[k]) == self.items_spec()[i]),
    {
        let n = self.items.len();
        let mut out: Vec<&T> = Vec::new();
        let mut i: usize = 0;
        while i < n
            invariant
                n == self.items_spec().len(),
                0 <= i <= n,
                forall|j: int|
                    0 <= j < self.items_spec().len() ==> predicate.requires(
                        (&(#[trigger] self.items_spec()[j]),),
                    ),
                forall|k: int|
                    0 <= k < out@.len() ==> predicate.ensures(((#[trigger] out@[k]),), true),
                forall|k: int|
                    0 <= k < out@.len() ==> self.items_spec().contains(*(#[trigger] out@[k])),
                forall|j: int|
                    0 <= j < i ==> (predicate.ensures((&(#[trigger] self.items_spec()[j]),), false)
                        || exists|k: int|
                        0 <= k < out@.len() && *(#[trigger] out@[k]) == self.items_spec()[j]),
            decreases n - i,
        {
            let ghost prev = out@;
            if predicate(&self.items[i]) {
                out.push(&self.items[i]);
                proof {
                    assert forall|j: int|
                        0 <= j < i as int + 1 implies (predicate.ensures(
                        (&(#[trigger] self.items_spec()[j]),),
                        false,
                    ) || exists|k: int|
                        0 <= k < out@.len() && *(#[trigger] out@[k]) == self.items_spec()[j]) by {
                        if j < i {
                            if !predicate.ensures((&self.items_spec()[j],), false) {
                                let k = choose|k: int|
                                    0 <= k < prev.len() && *(#[trigger] prev[k])
                                        == self.items_spec()[j];
                                assert(*out@[k] == self.items_spec()[j]);
                            }
                        } else {
                            assert(*out@[out@.len() - 1] == self.items_spec()[i as int]);
                        }
                    }
                }
            }
            i = i + 1;
        }
        out
    }
}

impl<T: Clone> Watchlist<T> {
    /// Clones of every item, in order.
    pub fn get_all(&self) -> (r: Vec<T>)
        ensures
            r@.len() == self.items_spec().len(),
            forall|i: int|
                0 <= i < r@.len() ==> vstd::pervasive::cloned::<T>(
                    self.items_spec()[i],
                    #[trigger] r@[i],
                ),
    {
        let n = self.items.len();
        let mut out: Vec<T> = Vec::new();
        let mut i: usize = 0;
        while i < n
            invariant
                n == self.items_spec().len(),
                0 <= i <= n,
                out@.len() == i,
                forall|j: int|
                    0 <= j < i ==> vstd::pervasive::cloned::<T>(
                        self.items_spec()[j],
                        #[trigger] out@[j],
                    ),
            decreases n - i,
        {
            out.push(self.items[i].clone());
            i = i + 1;
        }
        out
    }
}

impl<T: Clone + PartialOrd> Watchlist<T> {
    /// Clones of the items arranged in ascending comparison order, for
    /// item types whose comparison obeys its specification and answers
    /// on every pair.
    pub fn sorted(&self) -> (r: Vec<T>)
        requires
            T::obeys_partial_cmp_spec(),
            comparison_total::<T>(),
            comparison_consistent::<T>(),
        ensures
            r@.len() == self.items_spec().len(),
            sorted_ascending(r@),
            exists|c: Seq<T>|
                {
                    &&& #[trigger] c.to_multiset() == r@.to_multiset()
                    &&& c.len() == self.items_spec().len()
                    &&& (forall|i: int|
                        0 <= i < c.len() ==> vstd::pervasive::cloned::<T>(
                            self.items_spec()[i],
                            #[trigger] c[i],
                        ))
                },
    {
        let mut v = self.get_all();
        let ghost c = v@;
        sort_vec(&mut v);
        proof {
            assert(c.len() == self.items_spec().len());
        }
        v
    }

    /// Clones of the `n` items that compare highest, in descending
    /// order (all of them when fewer than `n` are stored).
    pub fn top_n(&self, n: usize) -> (r: Vec<T>)
        requires
            T::obeys_partial_cmp_spec(),
            comparison_total::<T>(),
            comparison_consistent::<T>(),
        ensures
            sorted_descending(r@),
            r@.len() == vstd::math::min(n as int, self.items_spec().len() as int),
    {
        let mut v = self.sorted();
        let ghost asc = v@;
        reverse_vec(&mut v);
        proof {
            assert forall|k: int|
                0 <= k < v@.len() - 1 implies (#[trigger] v@[k + 1].partial_cmp_spec(&v@[k]))
                != Some(core::cmp::Ordering::Greater) by {
                assert(v@[k + 1] == asc[v@.len() - 2 - k] && v@[k] == asc[v@.len() - 1 - k]);
                assert(asc[v@.len() - 2 - k].partial_cmp_spec(&asc[v@.len() - 2 - k + 1]) != Some(
                    core::cmp::Ordering::Greater,
                ));
            }
        }
        let ghost full = v@;
        if v.len() > n {
            v.truncate(n);
            proof {
                assert forall|k: int|
                    0 <= k < v@.len() - 1 implies (#[trigger] v@[k + 1].partial_cmp_spec(&v@[k]))
                    != Some(core::cmp::Ordering::Greater) by {
                    assert(v@[k + 1] == full[k + 1] && v@[k] == full[k]);
                }
            }
        }
        v
    }
}

/// One comparison chain never loses what another gained: answers that
/// are not "greater" compose.
pub open spec fn comparison_transitive<T: PartialOrd>() -> bool {
    forall|a: T, b: T, c: T|
        (#[trigger] a.partial_cmp_spec(&b)) != Some(core::cmp::Ordering::Greater) && (
        #[trigger] b.partial_cmp_spec(&c)) != Some(core::cmp::Ordering::Greater)
            ==> a.partial_cmp_spec(&c) != Some(core::cmp::Ordering::Greater)
}

proof fn lemma_no_self_greater<T: PartialOrd>(a: T)
    requires
        comparison_consistent::<T>(),
    ensures
        a.partial_cmp_spec(&a) != Some(core::cmp::Ordering::Greater),
{
    if a.partial_cmp_spec(&a) == Some(core::cmp::Ordering::Greater) {
        assert(a.partial_cmp_spec(&a) == Some(core::cmp::Ordering::Less));
    }
}

impl<U, R: Copy + PartialOrd> Watchlist<Rated<U, R>> {
    /// References to every entry rated strictly above the threshold,
    /// in order, and no other.
    pub fn rated_above(&self, threshold: R) -> (r: Vec<&Rated<U, R>>)
        ensures
            R::obeys_partial_cmp_spec() ==> {
                &&& forall|k: int|
                    0 <= k < r@.len() ==> (#[trigger] r@[k]).rating.value.partial_cmp_spec(
                        &threshold,
                    ) == Some(core::cmp::Ordering::Greater)
                &&& forall|k: int|
                    0 <= k < r@.len() ==> self.items_spec().contains(*(#[trigger] r@[k]))
                &&& forall|i: int|
                    0 <= i < self.items_spec().len() && (#[trigger] self.items_spec()[i]).rating.value.partial_cmp_spec(
                        &threshold,
                    ) == Some(core::cmp::Ordering::Greater) ==> exists|k: int|
                        0 <= k < r@.len() && *(#[trigger] r@[k]) == self.items_spec()[i]
            },
    {
        let n = self.items.len();
        let mut out: Vec<&Rated<U, R>> = Vec::new();
        let mut i: usize = 0;
        while i < n
            invariant
                n == self.items_spec().len(),
                0 <= i <= n,
                R::obeys_partial_cmp_spec() ==> {
                    &&& forall|k: int|
                        0 <= k < out@.len() ==> (#[trigger] out@[k]).rating.value.partial_cmp_spec(
                            &threshold,
                        ) == Some(core::cmp::Ordering::Greater)
                    &&& forall|k: int|
                        0 <= k < out@.len() ==> self.items_spec().contains(*(#[trigger] out@[k]))
                    &&& forall|j: int|
                        0 <= j < i && (#[trigger] self.items_spec()[j]).rating.value.partial_cmp_spec(
                            &threshold,
                        ) == Some(core::cmp::Ordering::Greater) ==> exists|k: int|
                            0 <= k < out@.len() && *(#[trigger] out@[k]) == self.items_spec()[j]
                },
            decreases n - i,
        {
            let ghost prev = out@;
            if self.items[i].rating.value() > threshold {
                out.push(&self.items[i]);
                proof {
                    if R::obeys_partial_cmp_spec() {
                        assert forall|j: int|
                            0 <= j < i as int + 1 && (
                            #[trigger] self.items_spec()[j]).rating.value.partial_cmp_spec(
                            &threshold,
                        ) == Some(core::cmp::Ordering::Greater) implies exists|k: int|
                            0 <= k < out@.len() && *(#[trigger] out@[k])
                                == self.items_spec()[j] by {
                            if j < i {
                                let k = choose|k: int|
                                    0 <= k < prev.len() && *(#[trigger] prev[k])
                                        == self.items_spec()[j];
                                assert(*out@[k] == self.items_spec()[j]);
                            } else {
                                assert(*out@[out@.len() - 1] == self.items_spec()[i as int]);
                            }
                        }
                    }
                }
            }
            i = i + 1;
        }
        out
    }

    /// A reference to an entry none rates above: the last of the
    /// highest-rated entries, or nothing when the list is empty.
    pub fn highest_rated(&self) -> (r: Option<&Rated<U, R>>)
        requires
            R::obeys_partial_cmp_spec(),
            comparison_total::<R>(),
            comparison_consistent::<R>(),
            comparison_transitive::<R>(),
        ensures
            r is Some <==> self.items_spec().len() > 0,
            r matches Some(m) ==> self.items_spec().contains(*m) && (forall|i: int|
                0 <= i < self.items_spec().len()
                    ==> (#[trigger] self.items_spec()[i]).rating.value.partial_cmp_spec(
                    &m.rating.value,
                ) != Some(core::cmp::Ordering::Greater)),
    {
        let n = self.items.len();
        if n == 0 {
            return None;
        }
        let mut best: usize = 0;
        let mut i: usize = 1;
        proof {
            lemma_no_self_greater::<R>(self.items_spec()[0].rating.value);
        }
        while i < n
            invariant
                n == self.items_spec().len(),
                0 <= best < i <= n,
                R::obeys_partial_cmp_spec(),
                comparison_total::<R>(),
                comparison_consistent::<R>(),
                comparison_transitive::<R>(),
                forall|j: int|
                    0 <= j < i ==> (#[trigger] self.items_spec()[j]).rating.value.partial_cmp_spec(
                        &self.items_spec()[best as int].rating.value,
                    ) != Some(core::cmp::Ordering::Greater),
            decreases n - i,
        {
            let c = self.items[best].rating.value().partial_cmp(&self.items[i].rating.value());
            match c {
                Some(core::cmp::Ordering::Greater) => (),
                _ => {
                    proof {
                        assert forall|j: int|
                            0 <= j < i as int + 1 implies (
                            #[trigger] self.items_spec()[j]).rating.value.partial_cmp_spec(
                            &self.items_spec()[i as int].rating.value,
                        ) != Some(core::cmp::Ordering::Greater) by {
                            if j < i {
                                assert(self.items_spec()[j].rating.value.partial_cmp_spec(
                                    &self.items_spec()[best as int].rating.value,
                                ) != Some(core::cmp::Ordering::Greater));
                                assert(self.items_spec()[best as int].rating.value.partial_cmp_spec(
                                    &self.items_spec()[i as int].rating.value,
                                ) != Some(core::cmp::Ordering::Greater));
                            } else {
                                lemma_no_self_greater::<R>(
                                    self.items_spec()[i as int].rating.value,
                                );
                            }
                        }
                    }
                    best = i;
                },
            }
            i = i + 1;
        }
        Some(&self.items[best])
    }
}

fn sort_vec<T: Clone + PartialOrd>(v: &mut Vec<T>)
    requires
        T::obeys_partial_cmp_spec(),
        comparison_total::<T>(),
        comparison_consistent::<T>(),
    ensures
        final(v)@.len() == old(v)@.len(),
        sorted_ascending(final(v)@),
        final(v)@.to_multiset() == old(v)@.to_multiset(),
{
    let n = v.len();
    let mut i: usize = 1;
    while i < n
        invariant
            n == v.len(),
            1 <= i,
            T::obeys_partial_cmp_spec(),
            comparison_total::<T>(),
            comparison_consistent::<T>(),
            v@.to_multiset() == old(v)@.to_multiset(),
            forall|k: int|
                0 <= k < i - 1 ==> (#[trigger] v@[k].partial_cmp_spec(&v@[k + 1])) != Some(
                    core::cmp::Ordering::Greater,
                ),
        decreases n - i,
    {
        let mut j: usize = i;
        while j > 0
            invariant_except_break
                0 <= j <= i < n,
                n == v.len(),
                T::obeys_partial_cmp_spec(),
                comparison_total::<T>(),
                comparison_consistent::<T>(),
                v@.to_multiset() == old(v)@.to_multiset(),
                forall|k: int|
                    0 <= k < i && k != j - 1 ==> (#[trigger] v@[k].partial_cmp_spec(&v@[k + 1]))
                        != Some(core::cmp::Ordering::Greater),
                1 <= j < i ==> v@[j - 1].partial_cmp_spec(&v@[j + 1]) != Some(
                    core::cmp::Ordering::Greater,
                ),
            ensures
                n == v.len(),
                v@.to_multiset() == old(v)@.to_multiset(),
                forall|k: int|
                    0 <= k < i ==> (#[trigger] v@[k].partial_cmp_spec(&v@[k + 1])) != Some(
                        core::cmp::Ordering::Greater,
                    ),
            decreases j,
        {
            let c = v[j - 1].partial_cmp(&v[j]);
            match c {
                Some(core::cmp::Ordering::Greater) => {
                    let ghost pre = v@;
                    proof {
                        assert(forall|k: int|
                            0 <= k < i && k != j - 1 ==> (#[trigger] pre[k].partial_cmp_spec(
                                &pre[k + 1],
                            )) != Some(core::cmp::Ordering::Greater));
                        assert(1 <= j < i ==> pre[j - 1].partial_cmp_spec(&pre[j + 1]) != Some(
                            core::cmp::Ordering::Greater,
                        ));
                    }
                    let x = v.remove(j - 1);
                    v.insert(j, x);
                    proof {
                        broadcast use vstd::seq_lib::group_to_multiset_ensures;

                        let swapped = pre.update(j - 1, pre[j as int]).update(j as int, pre[
                            j - 1
                        ]);
                        assert(v@ =~= swapped);
                        assert(pre.update(j - 1, pre[j as int])[j as int] == pre[j as int]);
                        assert(v@.to_multiset() =~= pre.to_multiset());
                        assert(pre[j - 1].partial_cmp_spec(&pre[j as int]) == Some(
                            core::cmp::Ordering::Greater,
                        ));
                        assert(v@[j as int] == pre[j - 1] && v@[j - 1] == pre[j as int]);
                        assert forall|k: int|
                            0 <= k < i && k != j - 2 implies (#[trigger] v@[k].partial_cmp_spec(
                            &v@[k + 1],
                        )) != Some(core::cmp::Ordering::Greater) by {
                            if k == j - 1 {
                                assert(v@[k].partial_cmp_spec(&v@[k + 1]) == Some(
                                    core::cmp::Ordering::Less,
                                ));
                            } else if k == j as int {
                                if j < i {
                                    assert(pre[j - 1].partial_cmp_spec(&pre[j + 1]) != Some(
                                        core::cmp::Ordering::Greater,
                                    ));
                                }
                            } else {
                                assert(v@[k] == pre[k] && v@[k + 1] == pre[k + 1]);
                            }
                        }
                        if 2 <= j && j - 1 < i {
                            assert(v@[j - 2] == pre[j - 2] && v@[j as int] == pre[j - 1]);
                            let ghost k2 = j - 2;
                            assert(pre[k2].partial_cmp_spec(&pre[k2 + 1]) != Some(
                                core::cmp::Ordering::Greater,
                            ));
                            assert(pre[j - 2].partial_cmp_spec(&pre[j - 1]) != Some(
                                core::cmp::Ordering::Greater,
                            ));
                        }
                    }
                },
                _ => {
                    proof {
                        assert forall|k: int|
                            0 <= k < i implies (#[trigger] v@[k].partial_cmp_spec(&v@[k + 1]))
                            != Some(core::cmp::Ordering::Greater) by {
                        }
                    }
                    break ;
                },
            }
            j = j - 1;
        }
        i = i + 1;
    }
}

fn reverse_vec<T>(v: &mut Vec<T>)
    ensures
        final(v)@.len() == old(v)@.len(),
        forall|k: int|
            0 <= k < final(v)@.len() ==> (#[trigger] final(v)@[k]) == old(v)@[final(v)@.len() - 1
                - k],
{
    let ghost orig = v@;
    let mut out: Vec<T> = Vec::new();
    while v.len() > 0
        invariant
            out@.len() + v@.len() == orig.len(),
            v@ == orig.take(v@.len() as int),
            forall|k: int| 0 <= k < out@.len() ==> (#[trigger] out@[k]) == orig[orig.len() - 1 - k],
        decreases v.len(),
    {
        let x = match v.pop() {
            Some(x) => x,
            None => unreached(),
        };
        proof {
            assert(orig.take(v@.len() as int + 1).last() == orig[v@.len() as int]);
            assert(v@ =~= orig.take(v@.len() as int));
        }
        out.push(x);
    }
    *v = out;
}

} // verus!
