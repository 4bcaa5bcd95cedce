//! Keys, items and layers.

use std::cmp::Ordering;
use vstd::prelude::*;

verus! {

/// Why a layer could not be read.
#[derive(Debug)]
pub struct Error {
    pub message: String,
}

/// One entry of a layer.
#[derive(Clone, Debug, PartialEq, Eq)]
pub struct Item<K, V> {
    pub key: K,
    pub value: V,
}

impl<K, V> Item<K, V> {
    pub fn new(key: K, value: V) -> (item: Item<K, V>)
        ensures
            item == (Item { key, value }),
    {
        Item { key, value }
    }

    pub fn as_item_ref(&self) -> (item: ItemRef<'_, K, V>)
        ensures
            item@ == *self,
    {
        ItemRef { key: &self.key, value: &self.value }
    }
}

/// A borrowed item.
#[derive(Debug)]
pub struct ItemRef<'a, K, V> {
    pub key: &'a K,
    pub value: &'a V,
}

impl<'a, K, V> View for ItemRef<'a, K, V> {
    type V = Item<K, V>;

    open spec fn view(&self) -> Item<K, V> {
        Item { key: *self.key, value: *self.value }
    }
}

/// Where a search in a layer starts.
#[derive(Clone, Copy, Debug, PartialEq, Eq)]
pub enum Bound<T> {
    /// At the first item.
    Unbounded,
    /// At the given key, or after it.
    Included(T),
    /// After the given key.
    Excluded(T),
}

/// Keys are ordered by their lower bounds. Two keys whose lower bounds are equal need not be equal.
pub trait OrdLowerBound: Sized {
    /// Whether the lower bound of `self` is at most that of `other`.
    closed spec fn lower_le(&self, other: &Self) -> bool {
        arbitrary()
    }

    /// Any two lower bounds are comparable.
    proof fn lower_le_total(a: &Self, b: &Self)
        ensures
            a.lower_le(b) || b.lower_le(a),
    ;

    proof fn lower_le_transitive(a: &Self, b: &Self, c: &Self)
        requires
            a.lower_le(b),
            b.lower_le(c),
        ensures
            a.lower_le(c),
    ;

    fn cmp_lower_bound(&self, other: &Self) -> (r: Ordering)
        ensures
            match r {
                Ordering::Less => !other.lower_le(self),
                Ordering::Equal => self.lower_le(other) && other.lower_le(self),
                Ordering::Greater => !self.lower_le(other),
            },
    ;
}

/// Keys that may know their immediate successor.
pub trait NextKey: Sized {
    /// Returns the key that comes directly after this one, if that is known. With it, a merge that
    /// has a key that does not exceed the successor need not consult further layers.
    fn next_key(&self) -> (r: Option<Self>)
        default_ensures
            r is None,
    {
        None
    }
}

/// Whether `next` is what `key` may give as the key that comes directly after it.
pub open spec fn may_be_next<K: NextKey>(key: K, next: Option<K>) -> bool {
    call_ensures(K::next_key, (&key,), next)
}

/// What remains of `items` when the first, if there is one, is left behind.
pub open spec fn rest_of<T>(items: Seq<T>) -> Seq<T> {
    if items.len() > 0 {
        items.drop_first()
    } else {
        items
    }
}

/// The first of `items`, if there is one.
pub open spec fn first_of<T>(items: Seq<T>) -> Option<T> {
    if items.len() > 0 {
        Some(items[0])
    } else {
        None
    }
}

/// A position in a layer.
pub trait LayerIterator<K, V> {
    /// The items that the iterator has gone past.
    closed spec fn passed(&self) -> Seq<Item<K, V>> {
        arbitrary()
    }

    /// The items from the position on.
    closed spec fn remaining(&self) -> Seq<Item<K, V>> {
        arbitrary()
    }

    /// The errors that advancing can fail with.
    closed spec fn errors(&self) -> Set<Error> {
        arbitrary()
    }

    /// Moves on to the next item. When this fails, the position is lost.
    fn advance(&mut self) -> (r: Result<(), Error>)
        ensures
            r is Ok ==> {
                &&& final(self).remaining() == rest_of(old(self).remaining())
                &&& old(self).remaining().len() > 0 ==> final(self).passed() == old(
                    self,
                ).passed().push(old(self).remaining()[0])
                &&& final(self).errors() == old(self).errors()
            },
            r matches Err(error) ==> old(self).errors().contains(error),
    ;

    /// Returns the item at the position, if there is one.
    fn get(&self) -> (r: Option<ItemRef<'_, K, V>>)
        ensures
            match r {
                Some(item) => first_of(self.remaining()) == Some(item@),
                None => self.remaining().len() == 0,
            },
    ;
}

/// An iterator of whatever kind.
#[verifier::reject_recursive_types(K)]
#[verifier::reject_recursive_types(V)]
pub struct BoxedLayerIterator<'a, K, V> {
    pub iter: Box<dyn LayerIterator<K, V> + 'a>,
}

/// A position in a layer whose items can be changed.
pub trait LayerIteratorMut<K, V>: LayerIterator<K, V> {
    /// Whether the changes made through this iterator have taken effect.
    closed spec fn committed(&self) -> bool {
        arbitrary()
    }

    /// Inserts `item` before the position.
    fn insert(&mut self, item: Item<K, V>)
        ensures
            final(self).passed() == old(self).passed().push(item),
            final(self).remaining() == old(self).remaining(),
            final(self).errors() == old(self).errors(),
    ;

    /// Erases the item at the position, which is then at the item after it.
    fn erase(&mut self)
        requires
            old(self).remaining().len() > 0,
        ensures
            final(self).passed() == old(self).passed(),
            final(self).remaining() == old(self).remaining().drop_first(),
            final(self).errors() == old(self).errors(),
    ;

    /// Makes the changes take effect, and waits until no reader sees the items before them.
    fn commit_and_wait(&mut self)
        ensures
            final(self).committed(),
            final(self).passed() == old(self).passed(),
            final(self).remaining() == old(self).remaining(),
    ;
}

/// An iterator over a mutable layer of whatever kind.
#[verifier::reject_recursive_types(K)]
#[verifier::reject_recursive_types(V)]
pub struct BoxedLayerIteratorMut<'a, K, V> {
    pub iter: Box<dyn LayerIteratorMut<K, V> + 'a>,
}

/// Sorted items that can be searched.
pub trait Layer<K, V> {
    /// The items from `bound` on.
    closed spec fn items_from(&self, bound: Bound<&K>) -> Seq<Item<K, V>> {
        arbitrary()
    }

    /// The errors that searching the layer, and advancing in it, can fail with.
    closed spec fn errors(&self) -> Set<Error> {
        arbitrary()
    }

    /// Searches for `bound`.
    fn seek<'a>(&'a self, bound: Bound<&K>) -> (r: Result<BoxedLayerIterator<'a, K, V>, Error>)
        ensures
            match r {
                Ok(found) => {
                    &&& (*found.iter).remaining() == self.items_from(bound)
                    &&& (*found.iter).errors().subset_of(self.errors())
                },
                Err(error) => self.errors().contains(error),
            },
    ;
}

/// A layer of whatever kind.
#[verifier::reject_recursive_types(K)]
#[verifier::reject_recursive_types(V)]
pub struct LayerRef<'a, K, V> {
    pub layer: &'a dyn Layer<K, V>,
}

} // verus!
