//! Small sets.

use vstd::prelude::*;

verus! {

/// Values that can be told apart.
pub trait Id: Copy {
    fn same(&self, other: &Self) -> (r: bool)
        ensures
            r == (*self == *other),
    ;
}

/// A set whose elements are kept in the order in which they were added.
#[derive(Debug)]
pub struct IdSet<T> {
    elements: Vec<T>,
}

impl<T> View for IdSet<T> {
    type V = Set<T>;

    open spec fn view(&self) -> Set<T> {
        self.elements().to_set()
    }
}

impl<T> IdSet<T> {
    /// The elements, in the order in which they were added.
    pub closed spec fn elements(&self) -> Seq<T> {
        self.elements@
    }

    /// Nothing occurs twice.
    pub open spec fn wf(&self) -> bool {
        self.elements().no_duplicates()
    }

    pub fn new() -> (r: Self)
        ensures
            r.wf(),
            r.elements() == Seq::<T>::empty(),
            r@ == Set::<T>::empty(),
    {
        let r = IdSet { elements: Vec::new() };
        assert(r@ =~= Set::empty());
        r
    }

    /// How many elements there are.
    pub fn len(&self) -> (r: usize)
        ensures
            r == self.elements().len(),
    {
        self.elements.len()
    }
}

impl<T: Id> IdSet<T> {
    /// The element that was added as the given one.
    pub fn get(&self, i: usize) -> (r: T)
        requires
            i < self.elements().len(),
        ensures
            r == self.elements()[i as int],
    {
        self.elements[i]
    }

    pub fn contains(&self, value: &T) -> (r: bool)
        ensures
            r == self@.contains(*value),
    {
        let mut i: usize = 0;
        while i < self.elements.len()
            invariant
                i <= self.elements.len(),
                forall|j: int| 0 <= j < i ==> self.elements[j] != *value,
            decreases self.elements.len() - i,
        {
            if self.elements[i].same(value) {
                assert(self.elements()[i as int] == *value);
                return true;
            }
            i += 1;
        }
        false
    }

    /// Adds an element, unless it is there.
    pub fn insert(&mut self, value: T)
        requires
            old(self).wf(),
        ensures
            final(self).wf(),
            final(self)@ == old(self)@.insert(value),
            old(self)@.contains(value) ==> *final(self) == *old(self),
            !old(self)@.contains(value) ==> final(self).elements() == old(self).elements().push(
                value,
            ),
    {
        if self.contains(&value) {
            assert(self@ =~= self@.insert(value));
            return;
        }
        self.elements.push(value);
        proof {
            let before = old(self).elements();
            assert(self.elements() == before.push(value));
            assert forall|x: T| self@.contains(x) == old(self)@.insert(value).contains(x) by {
                if before.contains(x) {
                    let k = before.index_of(x);
                    assert(self.elements()[k] == x);
                }
                if x == value {
                    assert(self.elements()[before.len() as int] == x);
                }
                if self.elements().contains(x) {
                    let k = self.elements().index_of(x);
                    if k < before.len() {
                        assert(before[k] == x);
                    }
                }
            }
            assert(self@ =~= old(self)@.insert(value));
        }
    }

    /// Takes an element out, if it is there.
    pub fn remove(&mut self, value: &T)
        requires
            old(self).wf(),
        ensures
            final(self).wf(),
            final(self)@ == old(self)@.remove(*value),
    {
        let ghost before = self.elements();
        let mut i: usize = 0;
        while i < self.elements.len()
            invariant
                i <= self.elements.len(),
                self.elements@ == before,
                self.wf(),
                *self == *old(self),
                forall|j: int| 0 <= j < i ==> self.elements[j] != *value,
            decreases self.elements.len() - i,
        {
            if self.elements[i].same(value) {
                let _ = self.elements.remove(i);
                proof {
                    let after = self.elements();
                    assert(after == before.remove(i as int));
                    assert forall|x: T| self@.contains(x) == old(self)@.remove(*value).contains(
                        x,
                    ) by {
                        if before.contains(x) && x != *value {
                            let k = before.index_of(x);
                            assert(after[if k < i {
                                k
                            } else {
                                k - 1
                            }] == x);
                        }
                        if after.contains(x) {
                            let k = after.index_of(x);
                            assert(before[if k < i {
                                k
                            } else {
                                k + 1
                            }] == x);
                        }
                    }
                    assert(self@ =~= old(self)@.remove(*value));
                }
                return;
            }
            i += 1;
        }
        assert(self@ =~= old(self)@.remove(*value));
    }

    /// The set of the given elements.
    pub fn from_slice(values: &[T]) -> (r: Self)
        ensures
            r.wf(),
            r@ == values@.to_set(),
    {
        let mut r = IdSet::new();
        r.insert_all(values);
        assert(r@ =~= values@.to_set());
        r
    }

    /// Adds the given elements.
    pub fn insert_all(&mut self, values: &[T])
        requires
            old(self).wf(),
        ensures
            final(self).wf(),
            final(self)@ == old(self)@.union(values@.to_set()),
    {
        let mut i: usize = 0;
        proof {
            assert(self@ =~= old(self)@.union(values@.take(0).to_set()));
        }
        while i < values.len()
            invariant
                i <= values@.len(),
                self.wf(),
                self@ == old(self)@.union(values@.take(i as int).to_set()),
            decreases values@.len() - i,
        {
            let ghost before = self@;
            self.insert(values[i]);
            proof {
                let a = values@.take(i as int);
                let b = values@.take(i + 1);
                assert(b =~= a.push(values@[i as int]));
                assert forall|x: T| b.to_set().contains(x) == a.to_set().insert(
                    values@[i as int],
                ).contains(x) by {
                    if a.contains(x) {
                        let k = a.index_of(x);
                        assert(b[k] == x);
                    }
                    if x == values@[i as int] {
                        assert(b[i as int] == x);
                    }
                }
                assert(self@ =~= old(self)@.union(b.to_set()));
            }
            i += 1;
        }
        assert(values@.take(i as int) =~= values@);
    }

    /// Whether every element is also one of the other set.
    pub fn is_subset(&self, other: &Self) -> (r: bool)
        ensures
            r == self@.subset_of(other@),
    {
        let mut i: usize = 0;
        while i < self.elements.len()
            invariant
                i <= self.elements.len(),
                forall|j: int| 0 <= j < i ==> other@.contains(#[trigger] self.elements()[j]),
            decreases self.elements.len() - i,
        {
            if !other.contains(&self.elements[i]) {
                assert(self.elements().contains(self.elements()[i as int]));
                return false;
            }
            i += 1;
        }
        true
    }
}

impl<T: Id> Clone for IdSet<T> {
    fn clone(&self) -> (r: Self)
        ensures
            r.elements() == self.elements(),
    {
        let mut elements: Vec<T> = Vec::new();
        let mut i: usize = 0;
        while i < self.elements.len()
            invariant
                i <= self.elements.len(),
                elements@ == self.elements@.take(i as int),
            decreases self.elements.len() - i,
        {
            elements.push(self.elements[i]);
            i += 1;
        }
        assert(elements@ =~= self.elements@);
        IdSet { elements }
    }
}

/// Two sets are equal if they have the same elements, in whatever order they were added.
impl<T: Id> PartialEq for IdSet<T> {
    fn eq(&self, other: &Self) -> (r: bool) {
        let equal = self.is_subset(other) && other.is_subset(self);
        assert(equal ==> self@ =~= other@);
        equal
    }
}

impl<T: Id> vstd::std_specs::cmp::PartialEqSpecImpl for IdSet<T> {
    open spec fn obeys_eq_spec() -> bool {
        true
    }

    open spec fn eq_spec(&self, other: &Self) -> bool {
        self@ == other@
    }
}

} // verus!
