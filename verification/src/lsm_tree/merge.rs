//! Merging the items of several layers into one sequence, and merging an item into a layer.

use crate::lsm_tree::types::{
    Bound, BoxedLayerIterator, BoxedLayerIteratorMut, Error, Item, ItemRef, Layer, LayerIterator,
    LayerIteratorMut, LayerRef, NextKey, OrdLowerBound,
};
use std::cmp::Ordering;
use vstd::multiset::Multiset;
use vstd::prelude::*;

verus! {

/// What becomes of one of the two items of a merge.
#[derive(Debug, PartialEq, Eq)]
pub enum ItemOp<K, V> {
    /// Keeps the item to be presented to the merger subsequently with a new merge pair.
    Keep,
    /// Discards the item and moves on to the next item in the respective layer.
    Discard,
    /// Replaces the item with something new which will be presented to the merger subsequently
    /// with a new pair.
    Replace(Item<K, V>),
}

/// What a merge function makes of two items.
#[derive(Debug, PartialEq, Eq)]
pub enum MergeResult<K, V> {
    /// Emits the left item unchanged. Keeps the right item. This is the common case. Once an item
    /// has been emitted, it will never be seen again by the merge function.
    EmitLeft,
    /// Emits the given item, if any, and treats the two items as the operations say. An item
    /// should not be replaced by one whose upper bound exceeds its own: the replacement is never
    /// merged with the later items of the same layer.
    Other { emit: Option<Item<K, V>>, left: ItemOp<K, V>, right: ItemOp<K, V> },
}

/// The item that a [`MergeLayerIterator`] stands at.
pub enum MergeItem<K, V> {
    /// No item.
    Empty,
    /// An item that is not the underlying iterator's own.
    Item(Item<K, V>),
    /// The item at the underlying iterator's position.
    Iter,
}

#[verifier::reject_recursive_types(K)]
#[verifier::reject_recursive_types(V)]
enum RawIterator<'a, K, V> {
    Absent,
    Const(BoxedLayerIterator<'a, K, V>),
    Mut(BoxedLayerIteratorMut<'a, K, V>),
}

/// Keeps track of where the merge is in one of the layers.
#[verifier::reject_recursive_types(K)]
#[verifier::reject_recursive_types(V)]
pub struct MergeLayerIterator<'a, K, V> {
    // The underlying iterator.
    iter: RawIterator<'a, K, V>,
    /// The index of the layer this is for.
    pub layer_index: u16,
    // The item we are currently pointing at.
    item: MergeItem<K, V>,
}

/// A [`MergeLayerIterator`] as a value: the item it stands at, which is either the first of `rest`
/// or a replacement for it, and the items that the underlying iterator has yet to go past.
pub struct Cursor<K, V> {
    pub layer_index: u16,
    pub item: Option<Item<K, V>>,
    pub rest: Seq<Item<K, V>>,
}

impl<K, V> Cursor<K, V> {
    /// A cursor at the first of `rest`.
    pub open spec fn at(layer_index: u16, rest: Seq<Item<K, V>>) -> Self {
        Cursor { layer_index, item: crate::lsm_tree::types::first_of(rest), rest }
    }

    /// The cursor when its item has been left behind.
    pub open spec fn advanced(self) -> Self {
        Cursor::at(self.layer_index, crate::lsm_tree::types::rest_of(self.rest))
    }

    /// The cursor with another item in place of its own.
    pub open spec fn replaced(self, item: Item<K, V>) -> Self {
        Cursor { item: Some(item), ..self }
    }

    /// What becomes of the cursor after a merge; `None` when it has run out of items.
    pub open spec fn updated(self, op: ItemOp<K, V>) -> Option<Self> {
        match op {
            ItemOp::Keep => Some(self),
            ItemOp::Discard => if self.advanced().item is Some {
                Some(self.advanced())
            } else {
                None
            },
            ItemOp::Replace(item) => Some(self.replaced(item)),
        }
    }
}

impl<K: OrdLowerBound, V> Cursor<K, V> {
    /// The order of merging: by the lower bound of the key, then by the layer.
    pub open spec fn precedes(self, other: Self) -> bool {
        &&& self.item is Some
        &&& other.item is Some
        &&& self.item->0.key.lower_le(&other.item->0.key)
        &&& other.item->0.key.lower_le(&self.item->0.key) ==> self.layer_index
            <= other.layer_index
    }
}

impl<'a, K, V> View for MergeLayerIterator<'a, K, V> {
    type V = Cursor<K, V>;

    closed spec fn view(&self) -> Cursor<K, V> {
        Cursor {
            layer_index: self.layer_index,
            item: match self.item {
                MergeItem::Empty => None,
                MergeItem::Item(item) => Some(item),
                MergeItem::Iter => crate::lsm_tree::types::first_of(self.raw_rest()),
            },
            rest: self.raw_rest(),
        }
    }
}

impl<'a, K, V> MergeLayerIterator<'a, K, V> {
    closed spec fn raw_rest(&self) -> Seq<Item<K, V>> {
        match self.iter {
            RawIterator::Absent => Seq::empty(),
            RawIterator::Const(iter) => (*iter.iter).remaining(),
            RawIterator::Mut(iter) => (*iter.iter).remaining(),
        }
    }

    /// What the underlying iterator has gone past.
    pub closed spec fn passed(&self) -> Seq<Item<K, V>> {
        match self.iter {
            RawIterator::Absent => Seq::empty(),
            RawIterator::Const(iter) => (*iter.iter).passed(),
            RawIterator::Mut(iter) => (*iter.iter).passed(),
        }
    }

    /// Whether there is an underlying iterator.
    pub closed spec fn has_iter(&self) -> bool {
        !(self.iter is Absent)
    }

    /// The errors that advancing can fail with.
    pub closed spec fn errors(&self) -> Set<Error> {
        match self.iter {
            RawIterator::Absent => Set::empty(),
            RawIterator::Const(iter) => (*iter.iter).errors(),
            RawIterator::Mut(iter) => (*iter.iter).errors(),
        }
    }

    /// Whether the item is a replacement, which the underlying iterator does not hold.
    pub closed spec fn holds_item(&self) -> bool {
        self.item is Item
    }

    /// A position that refers to the underlying iterator's item only where there is one.
    pub closed spec fn wf(&self) -> bool {
        self.item is Iter ==> self.has_iter() && self.raw_rest().len() > 0
    }

    // An iterator at the first item that `iter` has left.
    fn new(layer_index: u16, iter: BoxedLayerIterator<'a, K, V>) -> (r: Self)
        ensures
            r.wf(),
            r.has_iter(),
            r@ == Cursor::at(layer_index, (*iter.iter).remaining()),
            r.errors() == (*iter.iter).errors(),
    {
        let mut r = MergeLayerIterator {
            iter: RawIterator::Const(iter),
            layer_index,
            item: MergeItem::Empty,
        };
        r.set_item_from_iter();
        r
    }

    /// An iterator over nothing but the given item. There is no item at the position of an underlying
    /// iterator, as there is none.
    pub fn new_with_item(layer_index: u16, item: MergeItem<K, V>) -> (r: Self)
        ensures
            !(item is Iter) ==> r.wf(),
            !r.has_iter(),
            r.holds_item() == (item is Item),
            r@ == (Cursor {
                layer_index,
                item: match item {
                    MergeItem::Item(item) => Some(item),
                    _ => None,
                },
                rest: Seq::empty(),
            }),
    {
        MergeLayerIterator { iter: RawIterator::Absent, layer_index, item }
    }

    /// Returns the item that the iterator stands at.
    pub fn item(&self) -> (item: ItemRef<'_, K, V>)
        requires
            self.wf(),
            self@.item is Some,
        ensures
            self@.item == Some(item@),
    {
        match &self.item {
            MergeItem::Item(item) => item.as_item_ref(),
            _ => self.raw_get().unwrap(),
        }
    }

    pub fn key(&self) -> (key: &K)
        requires
            self.wf(),
            self@.item is Some,
        ensures
            *key == self@.item->0.key,
    {
        self.item().key
    }

    pub fn value(&self) -> (value: &V)
        requires
            self.wf(),
            self@.item is Some,
        ensures
            *value == self@.item->0.value,
    {
        self.item().value
    }

    // The item at the underlying iterator's position.
    fn raw_get(&self) -> (r: Option<ItemRef<'_, K, V>>)
        requires
            self.has_iter(),
        ensures
            match r {
                Some(item) => crate::lsm_tree::types::first_of(self.raw_rest()) == Some(item@),
                None => self.raw_rest().len() == 0,
            },
    {
        match &self.iter {
            RawIterator::Absent => None,
            RawIterator::Const(iter) => iter.iter.get(),
            RawIterator::Mut(iter) => iter.iter.get(),
        }
    }

    // Takes the item at the underlying iterator's position for the current one.
    fn set_item_from_iter(&mut self)
        requires
            old(self).has_iter(),
        ensures
            final(self).wf(),
            final(self).iter == old(self).iter,
            !final(self).holds_item(),
            final(self)@ == Cursor::at(old(self).layer_index, old(self)@.rest),
    {
        self.item = if self.raw_get().is_none() {
            MergeItem::Empty
        } else {
            MergeItem::Iter
        };
    }

    // Takes the item out where it is a replacement; otherwise changes nothing.
    fn take_item(&mut self) -> (r: Option<Item<K, V>>)
        requires
            old(self).wf(),
        ensures
            final(self).wf(),
            final(self).iter == old(self).iter,
            !final(self).holds_item(),
            final(self)@.rest == old(self)@.rest,
            final(self)@.layer_index == old(self)@.layer_index,
            old(self).holds_item() ==> r == old(self)@.item && final(self)@.item is None,
            !old(self).holds_item() ==> r is None && *final(self) == *old(self),
    {
        if matches!(self.item, MergeItem::Item(_)) {
            let mut item = MergeItem::Empty;
            std::mem::swap(&mut self.item, &mut item);
            match item {
                MergeItem::Item(item) => Some(item),
                _ => None,
            }
        } else {
            None
        }
    }

    // Leaves the current item behind. After an error the iterator must not be used.
    fn advance(&mut self) -> (r: Result<(), Error>)
        requires
            old(self).has_iter(),
        ensures
            r is Ok ==> {
                &&& final(self).wf()
                &&& final(self).has_iter()
                &&& !final(self).holds_item()
                &&& (final(self).iter is Mut) == (old(self).iter is Mut)
                &&& final(self)@ == old(self)@.advanced()
                &&& old(self)@.rest.len() > 0 ==> final(self).passed() == old(self).passed().push(
                    old(self)@.rest[0],
                )
                &&& final(self).errors() == old(self).errors()
            },
            r matches Err(error) ==> old(self).errors().contains(error),
    {
        let advanced = match &mut self.iter {
            RawIterator::Absent => Ok(()),
            RawIterator::Const(iter) => iter.iter.advance(),
            RawIterator::Mut(iter) => iter.iter.advance(),
        };
        match advanced {
            Ok(()) => {
                self.set_item_from_iter();
                Ok(())
            },
            Err(error) => Err(error),
        }
    }

    fn replace(&mut self, item: Item<K, V>)
        ensures
            final(self).wf(),
            final(self).iter == old(self).iter,
            final(self).holds_item(),
            final(self)@ == old(self)@.replaced(item),
    {
        self.item = MergeItem::Item(item);
    }

    fn is_some(&self) -> (r: bool)
        requires
            self.wf(),
        ensures
            r == (self@.item is Some),
    {
        !matches!(self.item, MergeItem::Empty)
    }

    // Advances where the operation is to discard the item.
    fn maybe_discard(&mut self, op: &ItemOp<K, V>) -> (r: Result<(), Error>)
        requires
            old(self).wf(),
            old(self).has_iter(),
        ensures
            r is Ok ==> {
                &&& final(self).wf()
                &&& final(self).has_iter()
                &&& final(self)@ == (if *op is Discard {
                    old(self)@.advanced()
                } else {
                    old(self)@
                })
                &&& final(self).errors() == old(self).errors()
            },
            r matches Err(error) ==> old(self).errors().contains(error),
    {
        if matches!(op, ItemOp::Discard) {
            self.advance()
        } else {
            Ok(())
        }
    }

    // Erases the item at the underlying iterator's position.
    fn erase(&mut self)
        requires
            old(self).iter is Mut,
            old(self)@.rest.len() > 0,
        ensures
            final(self).iter is Mut,
            final(self).layer_index == old(self).layer_index,
            final(self).item == old(self).item,
            final(self)@.rest == old(self)@.rest.drop_first(),
            final(self).passed() == old(self).passed(),
            final(self).errors() == old(self).errors(),
    {
        if let RawIterator::Mut(iter) = &mut self.iter {
            iter.iter.erase();
        }
    }

    // Inserts an item before the underlying iterator's position.
    fn insert(&mut self, item: Item<K, V>)
        requires
            old(self).iter is Mut,
        ensures
            final(self).iter is Mut,
            final(self).item == old(self).item,
            final(self)@ == old(self)@,
            final(self).passed() == old(self).passed().push(item),
            final(self).errors() == old(self).errors(),
            old(self).wf() ==> final(self).wf(),
    {
        if let RawIterator::Mut(iter) = &mut self.iter {
            iter.iter.insert(item);
        }
    }
}

impl<'a, K: OrdLowerBound, V> MergeLayerIterator<'a, K, V> {
    /// The order of merging, reversed: the iterator whose item goes first is the greatest. Items are
    /// ordered by the lower bounds of their keys, and then by their layers.
    pub fn cmp(&self, other: &Self) -> (r: Ordering)
        requires
            self.wf(),
            other.wf(),
            self@.item is Some,
            other@.item is Some,
        ensures
            match r {
                Ordering::Less => !self@.precedes(other@) && other@.precedes(self@),
                Ordering::Equal => self@.precedes(other@) && other@.precedes(self@),
                Ordering::Greater => self@.precedes(other@) && !other@.precedes(self@),
            },
    {
        proof {
            K::lower_le_total(&self@.item->0.key, &other@.item->0.key);
        }
        match other.key().cmp_lower_bound(self.key()) {
            Ordering::Less => Ordering::Less,
            Ordering::Greater => Ordering::Greater,
            Ordering::Equal => if other.layer_index < self.layer_index {
                Ordering::Less
            } else if other.layer_index == self.layer_index {
                Ordering::Equal
            } else {
                Ordering::Greater
            },
        }
    }

    // Whether this iterator's item goes before that of `other`.
    fn precedes(&self, other: &Self) -> (r: bool)
        requires
            self.wf(),
            other.wf(),
            self@.item is Some,
            other@.item is Some,
        ensures
            r == self@.precedes(other@),
            !r ==> other@.precedes(self@),
    {
        !matches!(self.cmp(other), Ordering::Less)
    }
}

impl<'a, K: OrdLowerBound, V> MergeLayerIterator<'a, K, V> {
    // Whether this iterator's key exceeds `key`.
    fn is_after(&self, key: &K) -> (r: bool)
        requires
            self.wf(),
            self@.item is Some,
        ensures
            r == !self@.item->0.key.lower_le(key),
    {
        proof {
            K::lower_le_total(&self@.item->0.key, key);
        }
        matches!(self.key().cmp_lower_bound(key), Ordering::Greater)
    }
}

/// Users must provide a merge function which will take pairs of items, left and right, and return
/// a merge result. The left item's key will either be less than the right item's key, or if they
/// are the same, then the left item will be in a lower layer index (lower layer indexes indicate
/// more recent entries). The last remaining item is always emitted.
pub trait MergeFn<K, V>: Fn(
    &MergeLayerIterator<'_, K, V>,
    &MergeLayerIterator<'_, K, V>,
) -> MergeResult<K, V> {

}

impl<K, V, F> MergeFn<K, V> for F where
    F: Fn(&MergeLayerIterator<'_, K, V>, &MergeLayerIterator<'_, K, V>) -> MergeResult<K, V>,
 {

}

/// One call of the merge function, and what it returned.
pub struct MergeStep<K, V> {
    pub left: Cursor<K, V>,
    pub right: Cursor<K, V>,
    pub result: MergeResult<K, V>,
}

/// The item that a merge has arrived at.
pub enum Current<K, V> {
    Nothing,
    /// An item that the merge function emitted.
    Emitted(Item<K, V>),
    /// The item of one of the layers.
    At(Cursor<K, V>),
}

impl<K, V> Current<K, V> {
    pub open spec fn item(self) -> Option<Item<K, V>> {
        match self {
            Current::Nothing => None,
            Current::Emitted(item) => Some(item),
            Current::At(cursor) => cursor.item,
        }
    }
}

/// Whether `c` is one of the cursors, and no other goes before it.
pub open spec fn is_lowest<K: OrdLowerBound, V>(
    heap: Multiset<Cursor<K, V>>,
    c: Cursor<K, V>,
) -> bool {
    &&& heap.contains(c)
    &&& forall|d: Cursor<K, V>| #[trigger] heap.contains(d) ==> c.precedes(d)
}

/// Whether `merge_fn` may return `result` for the two cursors.
pub open spec fn may_return<K, V, F: MergeFn<K, V>>(
    merge_fn: F,
    left: Cursor<K, V>,
    right: Cursor<K, V>,
    result: MergeResult<K, V>,
) -> bool {
    exists|l: &MergeLayerIterator<'_, K, V>, r: &MergeLayerIterator<'_, K, V>|
        l@ == left && r@ == right && #[trigger] call_ensures(merge_fn, (l, r), result)
}

/// Whether `merge_fn` accepts the two cursors.
pub open spec fn accepts<K, V, F: MergeFn<K, V>>(
    merge_fn: F,
    left: Cursor<K, V>,
    right: Cursor<K, V>,
) -> bool {
    forall|l: &MergeLayerIterator<'_, K, V>, r: &MergeLayerIterator<'_, K, V>|
        l.wf() && r.wf() && l@ == left && r@ == right ==> #[trigger] call_requires(merge_fn, (l, r))
}

/// Whether `merge_fn` accepts every pair of items in the order of merging. The left item's key is
/// less than the right item's key, or if they are the same, the left item is in a layer that does
/// not come after that of the right item.
pub open spec fn accepts_ordered_pairs<K: OrdLowerBound, V, F: MergeFn<K, V>>(
    merge_fn: F,
) -> bool {
    forall|l: &MergeLayerIterator<'_, K, V>, r: &MergeLayerIterator<'_, K, V>|
        l.wf() && r.wf() && l@.precedes(r@) ==> #[trigger] call_requires(merge_fn, (l, r))
}

/// The cursors with one more, where there is one.
pub open spec fn pushed<K, V>(
    heap: Multiset<Cursor<K, V>>,
    c: Option<Cursor<K, V>>,
) -> Multiset<Cursor<K, V>> {
    match c {
        Some(c) => heap.insert(c),
        None => heap,
    }
}

/// Whether the cursors are the lowest and the second lowest.
pub open spec fn is_lowest_pair<K: OrdLowerBound, V>(
    heap: Multiset<Cursor<K, V>>,
    left: Cursor<K, V>,
    right: Cursor<K, V>,
) -> bool {
    &&& is_lowest(heap, left)
    &&& is_lowest(heap.remove(left), right)
}

/// Whether a merge of the two lowest cursors may go as `step` says: the merge function is given
/// the lowest and the second lowest.
pub open spec fn may_step<K: OrdLowerBound, V, F: MergeFn<K, V>>(
    merge_fn: F,
    heap: Multiset<Cursor<K, V>>,
    step: MergeStep<K, V>,
) -> bool {
    &&& is_lowest_pair(heap, step.left, step.right)
    &&& may_return(merge_fn, step.left, step.right, step.result)
}

/// The cursors after `step`, when the left item has not been emitted.
pub open spec fn heap_after<K, V>(
    heap: Multiset<Cursor<K, V>>,
    step: MergeStep<K, V>,
) -> Multiset<Cursor<K, V>> {
    match step.result {
        MergeResult::EmitLeft => heap.remove(step.left),
        MergeResult::Other { emit, left, right } => pushed(
            pushed(
                heap.remove(step.left).remove(step.right),
                step.left.updated(left),
            ),
            step.right.updated(right),
        ),
    }
}

/// Whether a result brings the next item, so that merging stops.
pub open spec fn emits<K, V>(result: MergeResult<K, V>) -> bool {
    match result {
        MergeResult::EmitLeft => true,
        MergeResult::Other { emit, left, right } => emit is Some,
    }
}

/// Whether merging may make the calls `steps`, leave the cursors `after` and arrive at `current`.
/// The last remaining item is emitted without a call.
pub open spec fn may_merge<K: OrdLowerBound, V, F: MergeFn<K, V>>(
    merge_fn: F,
    heap: Multiset<Cursor<K, V>>,
    steps: Seq<MergeStep<K, V>>,
    after: Multiset<Cursor<K, V>>,
    current: Current<K, V>,
) -> bool
    decreases steps.len(),
{
    if heap.len() == 0 {
        steps.len() == 0 && after == heap && current is Nothing
    } else if heap.len() == 1 {
        &&& steps.len() == 0
        &&& after.len() == 0
        &&& current matches Current::At(c) && heap.contains(c)
    } else {
        &&& steps.len() > 0
        &&& may_step(merge_fn, heap, steps[0])
        &&& match steps[0].result {
            MergeResult::EmitLeft => {
                &&& steps.len() == 1
                &&& after == heap_after(heap, steps[0])
                &&& current == Current::At(steps[0].left)
            },
            MergeResult::Other { emit: Some(item), left, right } => {
                &&& steps.len() == 1
                &&& after == heap_after(heap, steps[0])
                &&& current == Current::Emitted(item)
            },
            MergeResult::Other { emit: None, left, right } => may_merge(
                merge_fn,
                heap_after(heap, steps[0]),
                steps.drop_first(),
                after,
                current,
            ),
        }
    }
}

/// Whether merging makes at most `n` calls that emit nothing, whatever the merge function returns,
/// and the merge function accepts the items of every call.
pub open spec fn merge_bounded<K: OrdLowerBound, V, F: MergeFn<K, V>>(
    merge_fn: F,
    heap: Multiset<Cursor<K, V>>,
    n: nat,
) -> bool
    decreases n,
{
    &&& forall|left: Cursor<K, V>, right: Cursor<K, V>| #[trigger]
        is_lowest_pair(heap, left, right) ==> accepts(merge_fn, left, right)
    &&& forall|step: MergeStep<K, V>| #[trigger]
        may_step(merge_fn, heap, step) && !emits(step.result) ==> n > 0 && merge_bounded(
            merge_fn,
            heap_after(heap, step),
            (n - 1) as nat,
        )
}

/// Whether merging comes to an end, with a merge function that accepts what it is given. There are
/// merge functions for which it does not, such as one that keeps both items and emits nothing.
pub open spec fn merge_terminates<K: OrdLowerBound, V, F: MergeFn<K, V>>(
    merge_fn: F,
    heap: Multiset<Cursor<K, V>>,
) -> bool {
    exists|n: nat| merge_bounded(merge_fn, heap, n)
}

/// What is recorded of a merge when tracing is on.
#[derive(Debug, PartialEq, Eq)]
pub enum TraceEvent<K, V> {
    /// A layer was searched for a bound, and an item was found or not.
    Search { bound: Bound<K>, found: Option<Item<K, V>> },
    /// The merge function was given two items and returned a result.
    Merge { left: Item<K, V>, right: Item<K, V>, result: MergeResult<K, V> },
}

/// Whether the clone of a value is that value.
pub open spec fn clones_exactly<T: Clone>() -> bool {
    forall|a: T, b: T| #[trigger] cloned(a, b) ==> a == b
}

/// Whether `after` is the history `before` with the given events appended, where tracing is on.
/// The events hold clones of keys and values.
pub open spec fn recorded<K: Clone, V: Clone>(
    trace: bool,
    before: Seq<TraceEvent<K, V>>,
    events: Seq<TraceEvent<K, V>>,
    after: Seq<TraceEvent<K, V>>,
) -> bool {
    if trace {
        clones_exactly::<K>() && clones_exactly::<V>() ==> after == before + events
    } else {
        after == before
    }
}

/// The bound with a key of its own.
pub open spec fn owned_bound<K>(bound: Bound<&K>) -> Bound<K> {
    match bound {
        Bound::Unbounded => Bound::Unbounded,
        Bound::Included(key) => Bound::Included(*key),
        Bound::Excluded(key) => Bound::Excluded(*key),
    }
}

fn clone_bound<K: Clone>(bound: Bound<&K>) -> (r: Bound<K>)
    ensures
        clones_exactly::<K>() ==> r == owned_bound(bound),
{
    match bound {
        Bound::Unbounded => Bound::Unbounded,
        Bound::Included(key) => {
            let copy = key.clone();
            assert(cloned(*key, copy));
            Bound::Included(copy)
        },
        Bound::Excluded(key) => {
            let copy = key.clone();
            assert(cloned(*key, copy));
            Bound::Excluded(copy)
        },
    }
}

fn clone_item<K: Clone, V: Clone>(item: ItemRef<'_, K, V>) -> (r: Item<K, V>)
    ensures
        clones_exactly::<K>() && clones_exactly::<V>() ==> r == item@,
{
    let key = item.key.clone();
    let value = item.value.clone();
    assert(cloned(*item.key, key));
    assert(cloned(*item.value, value));
    Item { key, value }
}

fn clone_op<K: Clone, V: Clone>(op: &ItemOp<K, V>) -> (r: ItemOp<K, V>)
    ensures
        clones_exactly::<K>() && clones_exactly::<V>() ==> r == *op,
{
    match op {
        ItemOp::Keep => ItemOp::Keep,
        ItemOp::Discard => ItemOp::Discard,
        ItemOp::Replace(item) => ItemOp::Replace(clone_item(item.as_item_ref())),
    }
}

fn clone_result<K: Clone, V: Clone>(result: &MergeResult<K, V>) -> (r: MergeResult<K, V>)
    ensures
        clones_exactly::<K>() && clones_exactly::<V>() ==> r == *result,
{
    match result {
        MergeResult::EmitLeft => MergeResult::EmitLeft,
        MergeResult::Other { emit, left, right } => {
            let emit = match emit {
                Some(item) => Some(clone_item(item.as_item_ref())),
                None => None,
            };
            MergeResult::Other { emit, left: clone_op(left), right: clone_op(right) }
        },
    }
}

/// The index that a layer's items are merged under.
pub open spec fn layer_index_of(position: int) -> u16 {
    #[verifier::truncate]
    (position as u16)
}

/// The cursors with which merging starts, when those layers have been consulted that had to be.
pub struct Consulted<K, V> {
    /// How many layers have been consulted.
    pub count: int,
    pub heap: Multiset<Cursor<K, V>>,
    pub events: Seq<TraceEvent<K, V>>,
}

/// Whether a key that equals or precedes `next_key` might be in a layer that has not been
/// consulted, because no cursor has one yet.
pub open spec fn must_consult<K: OrdLowerBound, V>(
    heap: Multiset<Cursor<K, V>>,
    next_key: Option<&K>,
) -> bool {
    ||| heap.len() == 0
    ||| next_key is None
    ||| forall|c: Cursor<K, V>| #[trigger] heap.contains(c) ==> !c.item->0.key.lower_le(next_key->0)
}

/// Searches the layers for `bound`, in their order, from the one at `state.count` on and only for
/// as long as it is necessary.
pub open spec fn consult<K: OrdLowerBound, V>(
    layers: Seq<LayerRef<'_, K, V>>,
    state: Consulted<K, V>,
    next_key: Option<&K>,
    bound: Bound<&K>,
) -> Consulted<K, V>
    decreases layers.len() - state.count,
{
    if state.count < layers.len() && must_consult(state.heap, next_key) {
        consult(layers, consult_one(layers, state, bound), next_key, bound)
    } else {
        state
    }
}

/// Searches one more layer for `bound`.
pub open spec fn consult_one<K: OrdLowerBound, V>(
    layers: Seq<LayerRef<'_, K, V>>,
    state: Consulted<K, V>,
    bound: Bound<&K>,
) -> Consulted<K, V> {
    let found = Cursor::at(layer_index_of(state.count), layers[state.count].layer.items_from(bound));
    Consulted {
        count: state.count + 1,
        heap: pushed(
            state.heap,
            if found.item is Some {
                Some(found)
            } else {
                None
            },
        ),
        events: state.events.push(
            TraceEvent::Search { bound: owned_bound(bound), found: found.item },
        ),
    }
}

/// The trace of a merge.
pub open spec fn merge_events<K, V>(steps: Seq<MergeStep<K, V>>) -> Seq<TraceEvent<K, V>> {
    steps.map_values(
        |step: MergeStep<K, V>|
            TraceEvent::Merge {
                left: step.left.item->0,
                right: step.right.item->0,
                result: step.result,
            },
    )
}

spec fn heap_of<K, V>(heap: Seq<MergeLayerIterator<'_, K, V>>) -> Multiset<Cursor<K, V>> {
    heap.map_values(|m: MergeLayerIterator<'_, K, V>| m@).to_multiset()
}

// Whether every iterator of the heap stands at an item and can go on.
spec fn heap_wf<K, V>(heap: Seq<MergeLayerIterator<'_, K, V>>) -> bool {
    forall|i: int|
        0 <= i < heap.len() ==> (#[trigger] heap[i]).wf() && heap[i].has_iter()
            && heap[i]@.item is Some
}

// Whether the iterators of the heap fail with nothing but the given errors.
spec fn heap_within<K, V>(heap: Seq<MergeLayerIterator<'_, K, V>>, errors: Set<Error>) -> bool {
    forall|i: int| 0 <= i < heap.len() ==> (#[trigger] heap[i]).errors().subset_of(errors)
}

proof fn lemma_heap_push<K, V>(
    heap: Seq<MergeLayerIterator<'_, K, V>>,
    m: MergeLayerIterator<'_, K, V>,
)
    ensures
        heap_of(heap.push(m)) == heap_of(heap).insert(m@),
        heap_of(heap).len() == heap.len(),
{
    broadcast use vstd::seq_lib::group_to_multiset_ensures;

    let f = |m: MergeLayerIterator<'_, K, V>| m@;
    assert(heap.push(m).map_values(f) =~= heap.map_values(f).push(m@));
}

proof fn lemma_heap_remove<K, V>(heap: Seq<MergeLayerIterator<'_, K, V>>, i: int)
    requires
        0 <= i < heap.len(),
    ensures
        heap_of(heap.remove(i)) == heap_of(heap).remove(heap[i]@),
        heap_of(heap).contains(heap[i]@),
        heap_of(heap).len() == heap.len(),
{
    broadcast use vstd::seq_lib::group_to_multiset_ensures;

    let f = |m: MergeLayerIterator<'_, K, V>| m@;
    let views = heap.map_values(f);
    assert(heap.remove(i).map_values(f) =~= views.remove(i));
    assert(views[i] == heap[i]@);
    assert(views.contains(heap[i]@));
    assert(views.to_multiset().count(heap[i]@) > 0);
}

proof fn lemma_heap_contains<K, V>(
    heap: Seq<MergeLayerIterator<'_, K, V>>,
    c: Cursor<K, V>,
) -> (i: int)
    requires
        heap_of(heap).contains(c),
    ensures
        0 <= i < heap.len(),
        heap[i]@ == c,
{
    broadcast use vstd::seq_lib::group_to_multiset_ensures;

    let views = heap.map_values(|m: MergeLayerIterator<'_, K, V>| m@);
    assert(views.to_multiset().count(c) > 0);
    assert(views.contains(c));
    let i = views.index_of(c);
    assert(views[i] == c);
    i
}

// Where the lowest iterator of the heap is.
fn lowest_position<K: OrdLowerBound, V>(heap: &Vec<MergeLayerIterator<'_, K, V>>) -> (r: usize)
    requires
        heap_wf(heap@),
        heap.len() > 0,
    ensures
        r < heap.len(),
        is_lowest(heap_of(heap@), heap[r as int]@),
{
    let mut lowest: usize = 0;
    let mut i: usize = 1;
    proof {
        K::lower_le_total(&heap[0]@.item->0.key, &heap[0]@.item->0.key);
    }
    while i < heap.len()
        invariant
            lowest < i <= heap.len(),
            heap_wf(heap@),
            forall|j: int| 0 <= j < i ==> heap[lowest as int]@.precedes((#[trigger] heap[j])@),
        decreases heap.len() - i,
    {
        if !heap[lowest].precedes(&heap[i]) {
            proof {
                let next = heap[i as int]@;
                let before = heap[lowest as int]@;
                K::lower_le_total(&next.item->0.key, &next.item->0.key);
                assert forall|j: int| 0 <= j < i + 1 implies next.precedes(
                    (#[trigger] heap[j])@,
                ) by {
                    if j < i {
                        law_merge_order_is_transitive(next, before, heap[j]@);
                    }
                }
            }
            lowest = i;
        }
        i += 1;
    }
    proof {
        lemma_heap_remove(heap@, lowest as int);
        assert forall|d: Cursor<K, V>| #[trigger] heap_of(heap@).contains(
            d,
        ) implies heap[lowest as int]@.precedes(d) by {
            let j = lemma_heap_contains(heap@, d);
            assert(heap[j]@ == d);
        }
    }
    lowest
}

/// The order of merging is transitive.
pub proof fn law_merge_order_is_transitive<K: OrdLowerBound, V>(
    a: Cursor<K, V>,
    b: Cursor<K, V>,
    c: Cursor<K, V>,
)
    requires
        a.precedes(b),
        b.precedes(c),
    ensures
        a.precedes(c),
{
    let (ka, kb, kc) = (a.item->0.key, b.item->0.key, c.item->0.key);
    K::lower_le_transitive(&ka, &kb, &kc);
    if kc.lower_le(&ka) {
        K::lower_le_transitive(&kc, &ka, &kb);
        K::lower_le_transitive(&kb, &kc, &ka);
    }
}

/// Of two positions with items, one goes before the other. Both do so only if the lower bounds of
/// their keys and their layers are equal, and one alone does so if its key has the lesser lower
/// bound, or the same and the lesser layer. Nothing else matters.
pub proof fn law_merge_order_is_total<K: OrdLowerBound, V>(a: Cursor<K, V>, b: Cursor<K, V>)
    requires
        a.item is Some,
        b.item is Some,
    ensures
        a.precedes(b) || b.precedes(a),
        a.precedes(b) && b.precedes(a) <==> {
            &&& a.item->0.key.lower_le(&b.item->0.key)
            &&& b.item->0.key.lower_le(&a.item->0.key)
            &&& a.layer_index == b.layer_index
        },
        !b.precedes(a) <==> {
            ||| !b.item->0.key.lower_le(&a.item->0.key)
            ||| a.item->0.key.lower_le(&b.item->0.key) && a.layer_index < b.layer_index
        },
        forall|c: Cursor<K, V>, d: Cursor<K, V>|
            c.item is Some && d.item is Some && c.item->0.key == a.item->0.key && d.item->0.key
                == b.item->0.key && c.layer_index == a.layer_index && d.layer_index
                == b.layer_index ==> #[trigger] c.precedes(d) == a.precedes(b),
{
    K::lower_le_total(&a.item->0.key, &b.item->0.key);
}

// Takes the lowest iterator off the heap.
fn pop_lowest<'a, K: OrdLowerBound, V>(heap: &mut Vec<MergeLayerIterator<'a, K, V>>) -> (r:
    MergeLayerIterator<'a, K, V>)
    requires
        heap_wf(old(heap)@),
        old(heap).len() > 0,
    ensures
        heap_wf(final(heap)@),
        final(heap).len() == old(heap).len() - 1,
        heap_of(old(heap)@).len() == old(heap).len(),
        is_lowest(heap_of(old(heap)@), r@),
        heap_of(final(heap)@) == heap_of(old(heap)@).remove(r@),
        r.wf(),
        r.has_iter(),
        r@.item is Some,
        forall|errors: Set<Error>| #[trigger]
            heap_within(old(heap)@, errors) ==> r.errors().subset_of(errors) && heap_within(
                final(heap)@,
                errors,
            ),
{
    let position: usize = lowest_position(heap);
    proof {
        lemma_heap_remove(heap@, position as int);
    }
    heap.remove(position)
}

// As we merge items, the current item can be an item that has been emitted by the merge function,
// or an item referenced by an iterator, or nothing.
#[verifier::reject_recursive_types(K)]
#[verifier::reject_recursive_types(V)]
enum CurrentItem<'a, K, V> {
    Nothing,
    Item(Item<K, V>),
    Iterator(MergeLayerIterator<'a, K, V>),
}

impl<'a, K, V> CurrentItem<'a, K, V> {
    spec fn current(&self) -> Current<K, V> {
        match self {
            CurrentItem::Nothing => Current::Nothing,
            CurrentItem::Item(item) => Current::Emitted(*item),
            CurrentItem::Iterator(iterator) => Current::At(iterator@),
        }
    }

    spec fn wf(&self) -> bool {
        self matches CurrentItem::Iterator(iterator) ==> iterator.wf() && iterator.has_iter()
            && iterator@.item is Some
    }

    // Whether advancing fails with nothing but the given errors.
    spec fn within(&self, errors: Set<Error>) -> bool {
        self matches CurrentItem::Iterator(iterator) ==> iterator.errors().subset_of(errors)
    }

    // Takes the iterator if one is present and replaces the current item with nothing; otherwise,
    // leaves the current item untouched.
    fn take_iterator(&mut self) -> (r: Option<MergeLayerIterator<'a, K, V>>)
        ensures
            match *old(self) {
                CurrentItem::Iterator(iterator) => r == Some(iterator) && *final(self)
                    is Nothing,
                _ => r is None && *final(self) == *old(self),
            },
    {
        if matches!(self, CurrentItem::Iterator(_)) {
            let mut result = CurrentItem::Nothing;
            std::mem::swap(self, &mut result);
            match result {
                CurrentItem::Iterator(iterator) => Some(iterator),
                _ => None,
            }
        } else {
            None
        }
    }

    fn get(&self) -> (r: Option<ItemRef<'_, K, V>>)
        requires
            self.wf(),
        ensures
            match r {
                Some(item) => self.current().item() == Some(item@),
                None => self.current() is Nothing,
            },
    {
        match self {
            CurrentItem::Nothing => None,
            CurrentItem::Iterator(iterator) => Some(iterator.item()),
            CurrentItem::Item(item) => Some(item.as_item_ref()),
        }
    }
}

/// Merger is the main entry point to merging.
#[verifier::reject_recursive_types(K)]
#[verifier::reject_recursive_types(V)]
pub struct Merger<'a, K, V, F> {
    // The layers, the most recent first.
    layers: Vec<LayerRef<'a, K, V>>,
    // The function to be used for merging items.
    merge_fn: F,
    // If true, what is done is recorded.
    trace: bool,
}

impl<'a, K: Clone + NextKey + OrdLowerBound, V: Clone, F: MergeFn<K, V>> Merger<'a, K, V, F> {
    pub closed spec fn layers(&self) -> Seq<LayerRef<'a, K, V>> {
        self.layers@
    }

    pub closed spec fn merge_fn(&self) -> F {
        self.merge_fn
    }

    pub closed spec fn trace(&self) -> bool {
        self.trace
    }

    pub fn new(layers: Vec<LayerRef<'a, K, V>>, merge_fn: F) -> (r: Self)
        ensures
            r.layers() == layers@,
            r.merge_fn() == merge_fn,
            !r.trace(),
    {
        Merger { layers, merge_fn, trace: false }
    }

    pub fn set_trace(&mut self, v: bool)
        ensures
            final(self).layers() == old(self).layers(),
            final(self).merge_fn() == old(self).merge_fn(),
            final(self).trace() == v,
    {
        self.trace = v;
    }

    /// Seek searches for |bound|.  If |bound| is Bound::Unbounded, the iterator is positioned on
    /// the first item.  If |bound| is Bound::Included(key), the iterator is positioned on an item
    /// such that item.key >= key.  In the latter case, a full merge might not occur; only the
    /// layers that need to be consulted to satisfy the query will occur.
    pub fn seek<'s>(&'s self, bound: Bound<&K>) -> (r: Result<MergerIterator<'s, 'a, K, V, F>, Error>)
        requires
            !(bound is Excluded),
            merge_terminates(self.merge_fn(), seek_start(self.layers(), bound).heap),
        ensures
            r matches Ok(iter) ==> {
                let start = seek_start(self.layers(), bound);
                &&& iter.wf()
                &&& iter.layers() == self.layers()
                &&& iter.merge_fn() == self.merge_fn()
                &&& iter.trace() == self.trace()
                &&& iter.consulted() == start.count
                &&& exists|steps: Seq<MergeStep<K, V>>|
                    {
                        &&& #[trigger] may_merge(
                            self.merge_fn(),
                            start.heap,
                            steps,
                            iter.cursors(),
                            iter.current(),
                        )
                        &&& recorded(
                            self.trace(),
                            Seq::empty(),
                            start.events + merge_events(steps),
                            iter.history(),
                        )
                    }
            },
            r matches Err(error) ==> layers_errors(self.layers()).contains(error),
            layers_reliable(self.layers()) ==> r is Ok,
    {
        let mut merger_iter = MergerIterator {
            merge_fn: &self.merge_fn,
            layers: &self.layers,
            consulted: 0,
            heap: Vec::new(),
            item: CurrentItem::Nothing,
            trace: self.trace,
            history: Vec::new(),
        };
        proof {
            lemma_heap_empty(merger_iter.heap@);
        }
        match merger_iter.seek(bound) {
            Ok(()) => Ok(merger_iter),
            Err(error) => Err(error),
        }
    }
}

/// What merging starts with after a search for `bound`.
pub open spec fn seek_start<K: OrdLowerBound, V>(
    layers: Seq<LayerRef<'_, K, V>>,
    bound: Bound<&K>,
) -> Consulted<K, V> {
    consult(
        layers,
        Consulted { count: 0, heap: Multiset::empty(), events: Seq::empty() },
        match bound {
            Bound::Included(key) => Some(key),
            _ => None,
        },
        bound,
    )
}

/// The errors that searching one of the layers, and advancing in it, can fail with.
pub open spec fn layers_errors<K, V>(layers: Seq<LayerRef<'_, K, V>>) -> Set<Error> {
    Set::new(
        |error: Error|
            exists|i: int|
                0 <= i < layers.len() && (#[trigger] layers[i]).layer.errors().contains(error),
    )
}

/// Whether searching the layers, and advancing in them, cannot fail.
pub open spec fn layers_reliable<K, V>(layers: Seq<LayerRef<'_, K, V>>) -> bool {
    forall|i: int|
        0 <= i < layers.len() ==> (#[trigger] layers[i]).layer.errors() == Set::<Error>::empty()
}

proof fn lemma_heap_empty<K, V>(heap: Seq<MergeLayerIterator<'_, K, V>>)
    requires
        heap.len() == 0,
    ensures
        heap_of(heap) == Multiset::<Cursor<K, V>>::empty(),
{
    broadcast use vstd::seq_lib::group_to_multiset_ensures;

    assert(heap_of(heap).len() == 0);
    assert(heap_of(heap) =~= Multiset::empty());
}

/// This is an iterator that will allow iteration over merged layers.
#[verifier::reject_recursive_types(K)]
#[verifier::reject_recursive_types(V)]
pub struct MergerIterator<'s, 'a, K, V, F> {
    merge_fn: &'s F,
    layers: &'s Vec<LayerRef<'a, K, V>>,
    // How many of the layers have been consulted. Those after them are not on the heap yet.
    consulted: usize,
    // The merge iterators, of which the lowest is taken off first.
    heap: Vec<MergeLayerIterator<'a, K, V>>,
    // The current item.
    item: CurrentItem<'a, K, V>,
    // If true, what is done is appended to history.
    trace: bool,
    /// Holds trace information if trace is true.
    pub history: Vec<TraceEvent<K, V>>,
}

impl<'s, 'a, K: Clone + NextKey + OrdLowerBound, V: Clone, F: MergeFn<K, V>> MergerIterator<
    's,
    'a,
    K,
    V,
    F,
> {
    pub closed spec fn layers(&self) -> Seq<LayerRef<'a, K, V>> {
        self.layers@
    }

    pub closed spec fn merge_fn(&self) -> F {
        *self.merge_fn
    }

    pub closed spec fn trace(&self) -> bool {
        self.trace
    }

    pub closed spec fn history(&self) -> Seq<TraceEvent<K, V>> {
        self.history@
    }

    /// How many layers have been consulted.
    pub closed spec fn consulted(&self) -> int {
        self.consulted as int
    }

    /// The cursors of the layers that have been consulted and have items left, but for the one
    /// that the current item is taken from.
    pub closed spec fn cursors(&self) -> Multiset<Cursor<K, V>> {
        heap_of(self.heap@)
    }

    pub closed spec fn current(&self) -> Current<K, V> {
        self.item.current()
    }

    pub closed spec fn wf(&self) -> bool {
        &&& self.consulted <= self.layers.len()
        &&& heap_wf(self.heap@)
        &&& heap_within(self.heap@, layers_errors(self.layers@))
        &&& self.item.wf()
        &&& self.item.within(layers_errors(self.layers@))
    }

    /// What merging starts with, when the current item has been left behind and the layers that
    /// might hold the next one have been consulted.
    pub open spec fn start(&self, next_key: Option<&K>, bound: Bound<&K>) -> Consulted<K, V> {
        consult(
            self.layers(),
            Consulted {
                count: self.consulted(),
                heap: match self.current() {
                    Current::At(c) => pushed(self.cursors(), c.updated(ItemOp::Discard)),
                    _ => self.cursors(),
                },
                events: Seq::empty(),
            },
            next_key,
            bound,
        )
    }

    /// Whether `self` is what merging from `start` may make of `before`.
    pub open spec fn merged_from(&self, before: &Self, start: Consulted<K, V>) -> bool {
        &&& self.wf()
        &&& self.layers() == before.layers()
        &&& self.merge_fn() == before.merge_fn()
        &&& self.trace() == before.trace()
        &&& self.consulted() == start.count
        &&& exists|steps: Seq<MergeStep<K, V>>|
            {
                &&& #[trigger] may_merge(
                    self.merge_fn(),
                    start.heap,
                    steps,
                    self.cursors(),
                    self.current(),
                )
                &&& recorded(
                    self.trace(),
                    before.history(),
                    start.events + merge_events(steps),
                    self.history(),
                )
            }
    }

    fn seek(&mut self, bound: Bound<&K>) -> (r: Result<(), Error>)
        requires
            old(self).wf(),
            !(bound is Excluded),
            merge_terminates(old(self).merge_fn(), old(self).start(
                match bound {
                    Bound::Included(key) => Some(key),
                    _ => None,
                },
                bound,
            ).heap),
        ensures
            r is Ok ==> final(self).merged_from(
                old(self),
                old(self).start(
                    match bound {
                        Bound::Included(key) => Some(key),
                        _ => None,
                    },
                    bound,
                ),
            ),
            r matches Err(error) ==> layers_errors(old(self).layers()).contains(error),
    {
        match bound {
            Bound::Included(key) => self.advance_impl(Some(key), Bound::Included(key)),
            _ => self.advance_impl(None, Bound::Unbounded),
        }
    }

    // Puts the iterator back onto the heap as the operation says. If discarding, the iterator
    // should have already been advanced.
    fn update_item(&mut self, item: MergeLayerIterator<'a, K, V>, op: ItemOp<K, V>)
        requires
            old(self).wf(),
            item.wf(),
            item.has_iter(),
            item.errors().subset_of(layers_errors(old(self).layers())),
            !(op is Discard) ==> item@.item is Some,
        ensures
            final(self).wf(),
            final(self).layers == old(self).layers,
            final(self).merge_fn == old(self).merge_fn,
            final(self).consulted == old(self).consulted,
            final(self).item == old(self).item,
            final(self).trace == old(self).trace,
            final(self).history == old(self).history,
            final(self).cursors() == pushed(
                old(self).cursors(),
                match op {
                    ItemOp::Keep => Some(item@),
                    ItemOp::Discard => if item@.item is Some {
                        Some(item@)
                    } else {
                        None
                    },
                    ItemOp::Replace(replacement) => Some(item@.replaced(replacement)),
                },
            ),
    {
        let mut item = item;
        match op {
            ItemOp::Keep => {
                proof {
                    lemma_heap_push(self.heap@, item);
                }
                self.heap.push(item);
            },
            ItemOp::Discard => {
                if item.is_some() {
                    proof {
                        lemma_heap_push(self.heap@, item);
                    }
                    self.heap.push(item);
                }
            },
            ItemOp::Replace(replacement) => {
                item.replace(replacement);
                proof {
                    lemma_heap_push(self.heap@, item);
                }
                self.heap.push(item);
            },
        }
    }

    // Merges items from an array of layers using the provided merge function. The merge function
    // is repeatedly provided the lowest and the second lowest element, if one exists. In cases
    // where the two lowest elements compare equal, the element with the lowest layer (i.e.
    // whichever comes first in the layers array) will come first.  If next_key is set, the merger
    // will stop querying more layers as soon as a key is encountered that equals or precedes it.
    // If next_key is None, then all layers are queried.  next_key_bound is the bound to search for
    // if another layer does need to be consulted.  See the comment for the NextKey trait.
    fn advance_impl(&mut self, next_key: Option<&K>, next_key_bound: Bound<&K>) -> (r: Result<
        (),
        Error,
    >)
        requires
            old(self).wf(),
            merge_terminates(
                old(self).merge_fn(),
                old(self).start(next_key, next_key_bound).heap,
            ),
        ensures
            r is Ok ==> final(self).merged_from(
                old(self),
                old(self).start(next_key, next_key_bound),
            ),
            r matches Err(error) ==> layers_errors(old(self).layers()).contains(error),
    {
        let ghost start = self.start(next_key, next_key_bound);
        if let Some(mut iterator) = self.item.take_iterator() {
            match iterator.advance() {
                Ok(()) => {},
                Err(error) => {
                    return Err(error);
                },
            }
            self.update_item(iterator, ItemOp::Discard);
        }
        match self.consult_layers(next_key, next_key_bound) {
            Ok(()) => {},
            Err(error) => {
                return Err(error);
            },
        }
        let ghost before = *self;
        let merged = self.merge_heap();
        proof {
            if merged is Ok {
                let steps = choose|steps: Seq<MergeStep<K, V>>|
                    {
                        &&& #[trigger] may_merge(
                            before.merge_fn(),
                            before.cursors(),
                            steps,
                            self.cursors(),
                            self.current(),
                        )
                        &&& recorded(
                            before.trace,
                            before.history@,
                            merge_events(steps),
                            self.history@,
                        )
                    };
                assert(may_merge(self.merge_fn(), start.heap, steps, self.cursors(), self.current()));
                assert(old(self).history@ + start.events + merge_events(steps) =~= old(
                    self,
                ).history@ + (start.events + merge_events(steps)));
            }
        }
        merged
    }

    // Whether a layer that has not been consulted might hold a key that equals or precedes
    // `next_key`, and no iterator on the heap has one yet.
    fn needs_consulting(&self, next_key: Option<&K>) -> (r: bool)
        requires
            self.wf(),
        ensures
            r == must_consult(self.cursors(), next_key),
    {
        proof {
            broadcast use vstd::seq_lib::group_to_multiset_ensures;

            assert(self.cursors().len() == self.heap.len());
        }
        if self.heap.is_empty() {
            return true;
        }
        match next_key {
            None => true,
            Some(next_key) => {
                let lowest: usize = lowest_position(&self.heap);
                proof {
                    let low = self.heap[lowest as int]@;
                    assert(self.cursors().contains(low));
                    assert forall|c: Cursor<K, V>| #[trigger]
                        self.cursors().contains(c) && c.item->0.key.lower_le(
                            next_key,
                        ) implies low.item->0.key.lower_le(next_key) by {
                        assert(low.precedes(c));
                        K::lower_le_transitive(&low.item->0.key, &c.item->0.key, next_key);
                    }
                }
                self.heap[lowest].is_after(next_key)
            },
        }
    }

    // Searches the layers that have not been consulted, for as long as it is necessary.
    fn consult_layers(&mut self, next_key: Option<&K>, bound: Bound<&K>) -> (r: Result<(), Error>)
        requires
            old(self).wf(),
        ensures
            r is Ok ==> {
                let state = consult(
                    old(self).layers(),
                    Consulted {
                        count: old(self).consulted(),
                        heap: old(self).cursors(),
                        events: Seq::empty(),
                    },
                    next_key,
                    bound,
                );
                &&& final(self).wf()
                &&& final(self).layers == old(self).layers
                &&& final(self).merge_fn == old(self).merge_fn
                &&& final(self).item == old(self).item
                &&& final(self).trace == old(self).trace
                &&& final(self).consulted() == state.count
                &&& final(self).cursors() == state.heap
                &&& recorded(old(self).trace, old(self).history@, state.events, final(self).history@)
            },
            r matches Err(error) ==> layers_errors(old(self).layers()).contains(error),
    {
        let ghost layers = self.layers@;
        let ghost first = Consulted {
            count: self.consulted as int,
            heap: self.cursors(),
            events: Seq::empty(),
        };
        let ghost mut events: Seq<TraceEvent<K, V>> = Seq::empty();
        while self.consulted < self.layers.len() && self.needs_consulting(next_key)
            invariant
                self.wf(),
                self.layers@ == layers,
                self.layers == old(self).layers,
                self.merge_fn == old(self).merge_fn,
                self.item == old(self).item,
                self.trace == old(self).trace,
                consult(layers, first, next_key, bound) == consult(
                    layers,
                    Consulted { count: self.consulted as int, heap: self.cursors(), events },
                    next_key,
                    bound,
                ),
                recorded(self.trace, old(self).history@, events, self.history@),
            decreases self.layers.len() - self.consulted,
        {
            let ghost state = Consulted {
                count: self.consulted as int,
                heap: self.cursors(),
                events,
            };
            let layer_index: u16 = index_of_position(self.consulted);
            let sub_iter = match self.layers[self.consulted].layer.seek(bound) {
                Ok(sub_iter) => sub_iter,
                Err(error) => {
                    return Err(error);
                },
            };
            self.consulted = self.consulted + 1;
            let iter = MergeLayerIterator::new(layer_index, sub_iter);
            if self.trace {
                let found = if iter.is_some() {
                    Some(clone_item(iter.item()))
                } else {
                    None
                };
                self.history.push(TraceEvent::Search { bound: clone_bound(bound), found });
            }
            proof {
                events = events.push(
                    TraceEvent::Search { bound: owned_bound(bound), found: iter@.item },
                );
            }
            self.update_item(iter, ItemOp::Discard);
            proof {
                let next = consult_one(layers, state, bound);
                assert(next == (Consulted {
                    count: self.consulted as int,
                    heap: self.cursors(),
                    events,
                }));
                if self.trace && clones_exactly::<K>() && clones_exactly::<V>() {
                    assert(self.history@ =~= old(self).history@ + events);
                }
            }
        }
        Ok(())
    }

    // Calls the merge function until there is a next item, or none is left.
    fn merge_heap(&mut self) -> (r: Result<(), Error>)
        requires
            old(self).wf(),
            merge_terminates(old(self).merge_fn(), old(self).cursors()),
        ensures
            r is Ok ==> {
                &&& final(self).wf()
                &&& final(self).layers == old(self).layers
                &&& final(self).merge_fn == old(self).merge_fn
                &&& final(self).consulted == old(self).consulted
                &&& final(self).trace == old(self).trace
                &&& exists|steps: Seq<MergeStep<K, V>>|
                    {
                        &&& #[trigger] may_merge(
                            old(self).merge_fn(),
                            old(self).cursors(),
                            steps,
                            final(self).cursors(),
                            final(self).current(),
                        )
                        &&& recorded(
                            old(self).trace,
                            old(self).history@,
                            merge_events(steps),
                            final(self).history@,
                        )
                    }
            },
            r matches Err(error) ==> layers_errors(old(self).layers()).contains(error),
    {
        let ghost f = *self.merge_fn;
        let ghost start = self.cursors();
        let ghost mut bound = choose|n: nat| merge_bounded(f, start, n);
        let ghost mut done: Seq<MergeStep<K, V>> = Seq::empty();
        proof {
            assert forall|
                steps: Seq<MergeStep<K, V>>,
                after: Multiset<Cursor<K, V>>,
                current: Current<K, V>,
            | #[trigger] may_merge(f, start, steps, after, current) implies may_merge(
                f,
                start,
                done + steps,
                after,
                current,
            ) by {
                assert(done + steps =~= steps);
            }
        }
        while self.heap.len() >= 2
            invariant
                self.wf(),
                self.layers == old(self).layers,
                self.merge_fn == old(self).merge_fn,
                *self.merge_fn == f,
                self.consulted == old(self).consulted,
                self.item == old(self).item,
                self.trace == old(self).trace,
                merge_bounded(f, self.cursors(), bound),
                start == old(self).cursors(),
                forall|
                    steps: Seq<MergeStep<K, V>>,
                    after: Multiset<Cursor<K, V>>,
                    current: Current<K, V>,
                | #[trigger]
                    may_merge(f, self.cursors(), steps, after, current) ==> may_merge(
                        f,
                        start,
                        done + steps,
                        after,
                        current,
                    ),
                recorded(self.trace, old(self).history@, merge_events(done), self.history@),
            decreases bound,
        {
            let ghost heap = self.cursors();
            let mut lowest = pop_lowest(&mut self.heap);
            let mut second_lowest = pop_lowest(&mut self.heap);
            proof {
                assert(heap.remove(lowest@).contains(second_lowest@));
                assert(heap.contains(second_lowest@));
                assert(is_lowest_pair(heap, lowest@, second_lowest@));
                assert(accepts(f, lowest@, second_lowest@));
            }
            let result = (self.merge_fn)(&lowest, &second_lowest);
            let ghost step = MergeStep { left: lowest@, right: second_lowest@, result };
            proof {
                assert(may_return(f, lowest@, second_lowest@, result)) by {
                    let l = &lowest;
                    let r = &second_lowest;
                    assert(call_ensures(f, (l, r), result));
                }
                assert(may_step(f, heap, step));
            }
            if self.trace {
                let event = TraceEvent::Merge {
                    left: clone_item(lowest.item()),
                    right: clone_item(second_lowest.item()),
                    result: clone_result(&result),
                };
                self.history.push(event);
            }
            proof {
                let last = seq![step];
                assert(merge_events(done.push(step)) =~= merge_events(done).push(
                    merge_events(last)[0],
                ));
                assert(done.push(step) =~= done + last);
                if self.trace && clones_exactly::<K>() && clones_exactly::<V>() {
                    assert(self.history@ =~= old(self).history@ + merge_events(done.push(step)));
                }
            }
            match result {
                MergeResult::EmitLeft => {
                    proof {
                        lemma_heap_push(self.heap@, second_lowest);
                        assert(heap_of(self.heap@).insert(second_lowest@) =~= heap.remove(
                            lowest@,
                        ));
                    }
                    self.heap.push(second_lowest);
                    self.item = CurrentItem::Iterator(lowest);
                    proof {
                        assert(may_merge(f, heap, seq![step], self.cursors(), self.current()));
                        assert(may_merge(f, start, done.push(step), self.cursors(), self.current()));
                        assert(old(self).merge_fn() == f);
                    }
                    return Ok(());
                },
                MergeResult::Other { emit, left, right } => {
                    match lowest.maybe_discard(&left) {
                        Ok(()) => {},
                        Err(error) => {
                            return Err(error);
                        },
                    }
                    match second_lowest.maybe_discard(&right) {
                        Ok(()) => {},
                        Err(error) => {
                            return Err(error);
                        },
                    }
                    self.update_item(lowest, left);
                    self.update_item(second_lowest, right);
                    assert(self.cursors() == heap_after(heap, step));
                    match emit {
                        Some(item) => {
                            self.item = CurrentItem::Item(item);
                            proof {
                                assert(may_merge(
                                    f,
                                    heap,
                                    seq![step],
                                    self.cursors(),
                                    self.current(),
                                ));
                                assert(may_merge(
                                    f,
                                    start,
                                    done.push(step),
                                    self.cursors(),
                                    self.current(),
                                ));
                                assert(old(self).merge_fn() == f);
                            }
                            return Ok(());
                        },
                        None => {
                            proof {
                                assert(!emits(step.result));
                                let ghost before = done;
                                done = done.push(step);
                                bound = (bound - 1) as nat;
                                assert forall|
                                    steps: Seq<MergeStep<K, V>>,
                                    after: Multiset<Cursor<K, V>>,
                                    current: Current<K, V>,
                                | #[trigger]
                                    may_merge(
                                        f,
                                        self.cursors(),
                                        steps,
                                        after,
                                        current,
                                    ) implies may_merge(
                                    f,
                                    start,
                                    done + steps,
                                    after,
                                    current,
                                ) by {
                                    let longer = seq![step] + steps;
                                    assert(longer.drop_first() =~= steps);
                                    assert(may_merge(f, heap, longer, after, current));
                                    assert(done + steps =~= before + longer);
                                }
                            }
                        },
                    }
                },
            }
        }
        let ghost heap = self.cursors();
        proof {
            broadcast use vstd::seq_lib::group_to_multiset_ensures;

            assert(heap.len() == self.heap.len());
        }
        if self.heap.len() == 1 {
            let lowest = pop_lowest(&mut self.heap);
            self.item = CurrentItem::Iterator(lowest);
        } else {
            self.item = CurrentItem::Nothing;
        }
        proof {
            let none: Seq<MergeStep<K, V>> = Seq::empty();
            broadcast use vstd::seq_lib::group_to_multiset_ensures;

            assert(self.cursors().len() == self.heap.len());
            assert(may_merge(f, heap, none, self.cursors(), self.current()));
            assert(done + none =~= done);
        }
        Ok(())
    }
}

/// What to look for to find the item after the current one.
pub struct Search<K> {
    /// A key that, once it or one before it has been found, ends the search.
    pub next_key: Option<K>,
    /// What to search the layers for.
    pub bound: Bound<K>,
}

impl<'s, 'a, K: Clone + NextKey + OrdLowerBound, V: Clone, F: MergeFn<K, V>> MergerIterator<
    's,
    'a,
    K,
    V,
    F,
> {
    /// Whether the key after the current one matters: it is needed to search the layers that have
    /// not been consulted.
    pub open spec fn asks_for_next(&self) -> bool {
        self.consulted() < self.layers().len() && self.current().item() is Some
    }

    /// Whether `next` may be the key after the current one. It is `None` where that does not
    /// matter.
    pub open spec fn may_go_to(&self, next: Option<K>) -> bool {
        if self.asks_for_next() {
            crate::lsm_tree::types::may_be_next(self.current().item()->0.key, next)
        } else {
            next is None
        }
    }

    /// What the next step looks for, with `next` as the key after the current one. If there is no
    /// next key, all layers must be queried and the key to search for is the immediate successor
    /// of the current key.
    pub open spec fn search(&self, next: Option<K>) -> Search<K> {
        if self.asks_for_next() {
            let key = self.current().item()->0.key;
            match next {
                Some(next) => Search { next_key: Some(next), bound: Bound::Included(next) },
                None => Search { next_key: None, bound: Bound::Excluded(key) },
            }
        } else {
            Search { next_key: None, bound: Bound::Unbounded }
        }
    }

    /// What merging starts with when the iterator advances, with `next` as the key after the
    /// current one.
    pub open spec fn next_start(&self, next: Option<K>) -> Consulted<K, V> {
        let search = self.search(next);
        self.start(
            match search.next_key {
                Some(key) => Some(&key),
                None => None,
            },
            match search.bound {
                Bound::Unbounded => Bound::Unbounded,
                Bound::Included(key) => Bound::Included(&key),
                Bound::Excluded(key) => Bound::Excluded(&key),
            },
        )
    }

    /// Moves on to the next item. After an error the iterator must not be used.
    pub fn advance(&mut self) -> (r: Result<(), Error>)
        requires
            old(self).wf(),
            old(self).asks_for_next() && old(self).may_go_to(None) ==> clones_exactly::<K>(),
            forall|next: Option<K>| #[trigger]
                old(self).may_go_to(next) ==> merge_terminates(
                    old(self).merge_fn(),
                    old(self).next_start(next).heap,
                ),
        ensures
            match r {
                Ok(()) => exists|next: Option<K>| #[trigger]
                    old(self).may_go_to(next) && final(self).merged_from(
                        old(self),
                        old(self).next_start(next),
                    ),
                Err(error) => layers_errors(old(self).layers()).contains(error),
            },
            layers_reliable(old(self).layers()) ==> r is Ok,
    {
        assert(!self.asks_for_next() ==> self.may_go_to(None));
        let bound = if self.consulted < self.layers.len() {
            match self.item.get() {
                None => Bound::Unbounded,
                Some(item) => {
                    let next_key = item.key.next_key();
                    assert(self.may_go_to(next_key));
                    match next_key {
                        Some(next_key) => Bound::Included(next_key),
                        None => {
                            let current_key = item.key.clone();
                            assert(cloned(*item.key, current_key));
                            Bound::Excluded(current_key)
                        },
                    }
                },
            }
        } else {
            Bound::Unbounded
        };
        match bound {
            Bound::Unbounded => self.advance_impl(None, Bound::Unbounded),
            Bound::Included(next_key) => self.advance_impl(
                Some(&next_key),
                Bound::Included(&next_key),
            ),
            Bound::Excluded(current_key) => self.advance_impl(None, Bound::Excluded(&current_key)),
        }
    }

    /// Returns the current item, if there is one.
    pub fn get(&self) -> (r: Option<ItemRef<'_, K, V>>)
        requires
            self.wf(),
        ensures
            match r {
                Some(item) => self.current().item() == Some(item@),
                None => self.current() is Nothing,
            },
    {
        self.item.get()
    }
}

// The index that a layer's items are merged under.
fn index_of_position(position: usize) -> (r: u16)
    ensures
        r == layer_index_of(position as int),
{
    #[verifier::truncate]
    (position as u16)
}

/// An item on its way into a layer.
pub struct Insertion<K, V> {
    /// The items of the layer that come before the place where the merge is.
    pub passed: Seq<Item<K, V>>,
    /// A replacement for an item that has been erased.
    pub held: Option<Item<K, V>>,
    /// The items of the layer that come after that place.
    pub rest: Seq<Item<K, V>>,
    /// What is left of the item.
    pub item: Option<Item<K, V>>,
}

impl<K, V> Insertion<K, V> {
    /// Where the merge is in the layer.
    pub open spec fn target(self) -> Cursor<K, V> {
        Cursor {
            layer_index: 1,
            item: match self.held {
                Some(item) => Some(item),
                None => crate::lsm_tree::types::first_of(self.rest),
            },
            rest: self.rest,
        }
    }

    /// The item, as the only one of a more recent layer.
    pub open spec fn source(self) -> Cursor<K, V> {
        Cursor { layer_index: 0, item: self.item, rest: Seq::empty() }
    }

    /// Whether there are two items to merge.
    pub open spec fn has_pair(self) -> bool {
        self.target().item is Some && self.source().item is Some
    }

    /// The insertion with `item` put before the place where the merge is.
    pub open spec fn inserted(self, item: Option<Item<K, V>>) -> Self {
        match item {
            Some(item) => Insertion { passed: self.passed.push(item), ..self },
            None => self,
        }
    }

    /// The insertion when the layer's item has been left behind unchanged.
    pub open spec fn left_behind(self) -> Self {
        match self.held {
            Some(item) => Insertion { passed: self.passed.push(item), held: None, ..self },
            None => Insertion {
                passed: self.passed.push(self.rest[0]),
                rest: self.rest.drop_first(),
                ..self
            },
        }
    }

    /// The insertion when the layer's item has been treated as `op` says.
    pub open spec fn target_updated(self, op: ItemOp<K, V>) -> Self {
        let rest = if self.held is Some {
            self.rest
        } else {
            self.rest.drop_first()
        };
        match op {
            ItemOp::Keep => self,
            ItemOp::Discard => Insertion { held: None, rest, ..self },
            ItemOp::Replace(item) => Insertion { held: Some(item), rest, ..self },
        }
    }

    /// The insertion when the item has been treated as `op` says.
    pub open spec fn source_updated(self, op: ItemOp<K, V>) -> Self {
        match op {
            ItemOp::Keep => self,
            ItemOp::Discard => Insertion { item: None, ..self },
            ItemOp::Replace(item) => Insertion { item: Some(item), ..self },
        }
    }

    /// What comes before `rest` in the layer in the end.
    pub open spec fn finished(self) -> Seq<Item<K, V>> {
        self.inserted(self.item).inserted(self.held).passed
    }
}

impl<K: OrdLowerBound, V> Insertion<K, V> {
    /// Whether the layer's item goes before the item on its way in.
    pub open spec fn target_is_left(self) -> bool {
        !self.source().item->0.key.lower_le(&self.target().item->0.key)
    }

    pub open spec fn left(self) -> Cursor<K, V> {
        if self.target_is_left() {
            self.target()
        } else {
            self.source()
        }
    }

    pub open spec fn right(self) -> Cursor<K, V> {
        if self.target_is_left() {
            self.source()
        } else {
            self.target()
        }
    }

    /// The call of the merge function that returned `result`.
    pub open spec fn step(self, result: MergeResult<K, V>) -> MergeStep<K, V> {
        MergeStep { left: self.left(), right: self.right(), result }
    }

    /// Whether a result ends the merge: the item goes in as it is.
    pub open spec fn ends_with(self, result: MergeResult<K, V>) -> bool {
        !self.target_is_left() && result is EmitLeft
    }

    /// The insertion after a merge of the two items.
    pub open spec fn merged(self, result: MergeResult<K, V>) -> Self {
        match result {
            MergeResult::EmitLeft => self.left_behind(),
            MergeResult::Other { emit, left, right } => if self.target_is_left() {
                self.inserted(emit).target_updated(left).source_updated(right)
            } else {
                self.inserted(emit).source_updated(left).target_updated(right)
            },
        }
    }
}

/// Whether merging an item into a layer may make the calls `steps` and end as `end`.
pub open spec fn may_insert<K: OrdLowerBound, V, F: MergeFn<K, V>>(
    merge_fn: F,
    insertion: Insertion<K, V>,
    steps: Seq<MergeStep<K, V>>,
    end: Insertion<K, V>,
) -> bool
    decreases steps.len(),
{
    if !insertion.has_pair() {
        steps.len() == 0 && end == insertion
    } else {
        &&& steps.len() > 0
        &&& steps[0].left == insertion.left()
        &&& steps[0].right == insertion.right()
        &&& may_return(merge_fn, insertion.left(), insertion.right(), steps[0].result)
        &&& if insertion.ends_with(steps[0].result) {
            steps.len() == 1 && end == insertion
        } else {
            may_insert(merge_fn, insertion.merged(steps[0].result), steps.drop_first(), end)
        }
    }
}

/// Whether merging an item into a layer makes at most `n` calls that do not end it, and the merge
/// function accepts the items of every call.
pub open spec fn insert_bounded<K: OrdLowerBound, V, F: MergeFn<K, V>>(
    merge_fn: F,
    insertion: Insertion<K, V>,
    n: nat,
) -> bool
    decreases n,
{
    insertion.has_pair() ==> {
        &&& accepts(merge_fn, insertion.left(), insertion.right())
        &&& forall|result: MergeResult<K, V>| #[trigger]
            may_return(merge_fn, insertion.left(), insertion.right(), result)
                && !insertion.ends_with(result) ==> n > 0 && insert_bounded(
                merge_fn,
                insertion.merged(result),
                (n - 1) as nat,
            )
    }
}

/// Whether merging an item into a layer comes to an end, with a merge function that accepts what it
/// is given.
pub open spec fn insert_terminates<K: OrdLowerBound, V, F: MergeFn<K, V>>(
    merge_fn: F,
    insertion: Insertion<K, V>,
) -> bool {
    exists|n: nat| insert_bounded(merge_fn, insertion, n)
}

impl<'a, K, V> MergeLayerIterator<'a, K, V> {
    // Whether this iterator is where the insertion is in the layer.
    spec fn is_target(&self, insertion: Insertion<K, V>) -> bool {
        &&& self.wf()
        &&& self.iter is Mut
        &&& self@ == insertion.target()
        &&& self.passed() == insertion.passed
        &&& self.holds_item() == (insertion.held is Some)
    }

    // Whether this iterator is what is left of the item.
    spec fn is_source(&self, insertion: Insertion<K, V>) -> bool {
        &&& self.wf()
        &&& self.iter is Absent
        &&& self@ == insertion.source()
        &&& self.holds_item() == (insertion.item is Some)
    }

    // Leaves the layer's item behind unchanged.
    fn leave_behind(&mut self, Ghost(insertion): Ghost<Insertion<K, V>>) -> (r: Result<(), Error>)
        requires
            old(self).is_target(insertion),
            old(self)@.item is Some,
        ensures
            r is Ok ==> final(self).is_target(insertion.left_behind()) && final(self).errors()
                == old(self).errors(),
            r matches Err(error) ==> old(self).errors().contains(error),
    {
        match self.take_item() {
            Some(item) => {
                self.insert(item);
                self.set_item_from_iter();
                Ok(())
            },
            None => self.advance(),
        }
    }

    // Treats the layer's item as the operation says.
    fn update_target(&mut self, op: ItemOp<K, V>, Ghost(insertion): Ghost<Insertion<K, V>>)
        requires
            old(self).is_target(insertion),
            old(self)@.item is Some,
        ensures
            final(self).is_target(insertion.target_updated(op)),
            final(self).errors() == old(self).errors(),
    {
        match op {
            ItemOp::Keep => {},
            ItemOp::Discard => {
                if matches!(self.item, MergeItem::Iter) {
                    self.erase();
                }
                self.set_item_from_iter();
            },
            ItemOp::Replace(item) => {
                if matches!(self.item, MergeItem::Iter) {
                    self.erase();
                }
                self.replace(item);
            },
        }
    }

    // Treats the item that is to go into the layer as the operation says.
    fn update_source(&mut self, op: ItemOp<K, V>, Ghost(insertion): Ghost<Insertion<K, V>>)
        requires
            old(self).is_source(insertion),
        ensures
            final(self).is_source(insertion.source_updated(op)),
    {
        match op {
            ItemOp::Keep => {},
            ItemOp::Discard => {
                self.item = MergeItem::Empty;
            },
            ItemOp::Replace(item) => {
                self.replace(item);
            },
        }
    }

    // Inserts an item before the place where the merge is, where there is one.
    fn insert_emitted(&mut self, item: Option<Item<K, V>>, Ghost(insertion): Ghost<Insertion<K, V>>)
        requires
            old(self).is_target(insertion),
        ensures
            final(self).is_target(insertion.inserted(item)),
            final(self).errors() == old(self).errors(),
    {
        if let Some(item) = item {
            self.insert(item);
        }
    }
}

// Whether what may become of `now` may become of `first`, after the calls `done`.
spec fn leads_to<K: OrdLowerBound, V, F: MergeFn<K, V>>(
    merge_fn: F,
    first: Insertion<K, V>,
    done: Seq<MergeStep<K, V>>,
    now: Insertion<K, V>,
) -> bool {
    forall|steps: Seq<MergeStep<K, V>>, end: Insertion<K, V>| #[trigger]
        may_insert(merge_fn, now, steps, end) ==> may_insert(merge_fn, first, done + steps, end)
}

proof fn lemma_insert_step<K: OrdLowerBound, V, F: MergeFn<K, V>>(
    merge_fn: F,
    first: Insertion<K, V>,
    done: Seq<MergeStep<K, V>>,
    now: Insertion<K, V>,
    result: MergeResult<K, V>,
    bound: nat,
)
    requires
        now.has_pair(),
        may_return(merge_fn, now.left(), now.right(), result),
        !now.ends_with(result),
        insert_bounded(merge_fn, now, bound),
        leads_to(merge_fn, first, done, now),
    ensures
        bound > 0,
        insert_bounded(merge_fn, now.merged(result), (bound - 1) as nat),
        leads_to(merge_fn, first, done.push(now.step(result)), now.merged(result)),
{
    let step = now.step(result);
    assert forall|steps: Seq<MergeStep<K, V>>, end: Insertion<K, V>| #[trigger]
        may_insert(merge_fn, now.merged(result), steps, end) implies may_insert(
        merge_fn,
        first,
        done.push(step) + steps,
        end,
    ) by {
        let longer = seq![step] + steps;
        assert(longer.drop_first() =~= steps);
        assert(may_insert(merge_fn, now, longer, end));
        assert(done.push(step) + steps =~= done + longer);
    }
}

/// Merges the given item into a mutable layer. Returns the iterator through which the layer has
/// been changed.
pub fn merge_into<'a, K: OrdLowerBound, V, F: MergeFn<K, V>>(
    mut_iter: BoxedLayerIteratorMut<'a, K, V>,
    item: Item<K, V>,
    merge_fn: &F,
) -> (r: Result<BoxedLayerIteratorMut<'a, K, V>, Error>)
    requires
        insert_terminates(*merge_fn, insertion_start(mut_iter, item)),
    ensures
        r matches Ok(done) ==> (*done.iter).committed() && exists|
            steps: Seq<MergeStep<K, V>>,
            end: Insertion<K, V>,
        |
            {
                &&& #[trigger] may_insert(*merge_fn, insertion_start(mut_iter, item), steps, end)
                &&& (*done.iter).passed() == end.finished()
                &&& (*done.iter).remaining() == end.rest
            },
        r matches Err(error) ==> (*mut_iter.iter).errors().contains(error),
        (*mut_iter.iter).errors() == Set::<Error>::empty() ==> r is Ok,
{
    let ghost first = insertion_start(mut_iter, item);
    let ghost mut now = first;
    let ghost mut bound = choose|n: nat| insert_bounded(*merge_fn, first, n);
    let ghost mut done: Seq<MergeStep<K, V>> = Seq::empty();
    let ghost errors = (*mut_iter.iter).errors();
    let mut target = MergeLayerIterator {
        iter: RawIterator::Mut(mut_iter),
        layer_index: 1,
        item: MergeItem::Empty,
    };
    target.set_item_from_iter();
    let mut source = MergeLayerIterator::new_with_item(0, MergeItem::Item(item));
    proof {
        assert forall|steps: Seq<MergeStep<K, V>>, end: Insertion<K, V>| #[trigger]
            may_insert(*merge_fn, first, steps, end) implies may_insert(
            *merge_fn,
            first,
            done + steps,
            end,
        ) by {
            assert(done + steps =~= steps);
        }
        assert(target.is_target(now));
        assert(source.is_source(now));
    }
    loop
        invariant_except_break
            target.is_target(now),
            source.is_source(now),
            insert_bounded(*merge_fn, now, bound),
            leads_to(*merge_fn, first, done, now),
            target.errors() == errors,
            errors == (*mut_iter.iter).errors(),
        ensures
            target.is_target(now),
            source.is_source(now),
            exists|steps: Seq<MergeStep<K, V>>| #[trigger] may_insert(*merge_fn, first, steps, now),
        decreases bound,
    {
        if !(target.is_some() && source.is_some()) {
            proof {
                let none: Seq<MergeStep<K, V>> = Seq::empty();
                assert(may_insert(*merge_fn, now, none, now));
                assert(may_insert(*merge_fn, first, done + none, now));
            }
            break;
        }
        let ghost before = now;
        if !source.precedes(&target) {
            // The mutable layer is left and the item we're merging-in is right.
            let result = merge_fn(&target, &source);
            proof {
                assert(may_return(*merge_fn, before.left(), before.right(), result));
                lemma_insert_step(*merge_fn, first, done, before, result, bound);
                done = done.push(before.step(result));
                now = before.merged(result);
                bound = (bound - 1) as nat;
            }
            match result {
                MergeResult::EmitLeft => {
                    match target.leave_behind(Ghost(before)) {
                        Ok(()) => {},
                        Err(error) => {
                            return Err(error);
                        },
                    }
                },
                MergeResult::Other { emit, left, right } => {
                    target.insert_emitted(emit, Ghost(before));
                    target.update_target(left, Ghost(before.inserted(emit)));
                    source.update_source(right, Ghost(before.inserted(emit).target_updated(left)));
                },
            }
        } else {
            // The item we're merging-in is left and the mutable layer is right.
            let result = merge_fn(&source, &target);
            proof {
                assert(may_return(*merge_fn, before.left(), before.right(), result));
            }
            match result {
                MergeResult::EmitLeft => {
                    // The item is inserted outside the loop.
                    proof {
                        let last = seq![before.step(result)];
                        assert(may_insert(*merge_fn, now, last, now));
                        assert(may_insert(*merge_fn, first, done + last, now));
                    }
                    break;
                },
                MergeResult::Other { emit, left, right } => {
                    proof {
                        lemma_insert_step(*merge_fn, first, done, before, result, bound);
                        done = done.push(before.step(result));
                        now = before.merged(result);
                        bound = (bound - 1) as nat;
                    }
                    target.insert_emitted(emit, Ghost(before));
                    source.update_source(left, Ghost(before.inserted(emit)));
                    target.update_target(right, Ghost(before.inserted(emit).source_updated(left)));
                },
            }
        }
    }
    // Both items are here only when merging has ended with the item as the left one, so this order
    // is right.
    if let Some(item) = source.take_item() {
        target.insert(item);
    }
    if let Some(item) = target.take_item() {
        target.insert(item);
    }
    match target.iter {
        RawIterator::Mut(mut iter) => {
            iter.iter.commit_and_wait();
            Ok(iter)
        },
        _ => unreached(),
    }
}

/// An item before it has been merged into the layer that `mut_iter` is in.
pub open spec fn insertion_start<K, V>(
    mut_iter: BoxedLayerIteratorMut<'_, K, V>,
    item: Item<K, V>,
) -> Insertion<K, V> {
    Insertion {
        passed: (*mut_iter.iter).passed(),
        held: None,
        rest: (*mut_iter.iter).remaining(),
        item: Some(item),
    }
}

/// Whether the cursors belong to different layers.
pub open spec fn layers_distinct<K, V>(heap: Multiset<Cursor<K, V>>) -> bool {
    &&& forall|c: Cursor<K, V>| #[trigger] heap.count(c) <= 1
    &&& forall|c: Cursor<K, V>, d: Cursor<K, V>| #[trigger]
        heap.contains(c) && #[trigger] heap.contains(d) && c.layer_index == d.layer_index ==> c == d
}

/// The merger never merges two items together from the same layer: the left item's key is less
/// than the right item's key, or if they are the same, the left item is in a lower layer. And it
/// leaves at most one cursor for each layer.
pub proof fn law_never_merges_a_layer_with_itself<K: OrdLowerBound, V, F: MergeFn<K, V>>(
    merge_fn: F,
    heap: Multiset<Cursor<K, V>>,
    step: MergeStep<K, V>,
)
    requires
        layers_distinct(heap),
        may_step(merge_fn, heap, step),
    ensures
        step.left.layer_index != step.right.layer_index,
        !step.right.item->0.key.lower_le(&step.left.item->0.key) || (step.left.item->0.key.lower_le(
            &step.right.item->0.key,
        ) && step.left.layer_index < step.right.layer_index),
        layers_distinct(heap_after(heap, step)),
{
    let (l, r) = (step.left, step.right);
    assert(heap.contains(r)) by {
        assert(heap.remove(l).contains(r));
    }
    assert(l.precedes(r));
    if l.layer_index == r.layer_index {
        assert(l == r);
        assert(heap.remove(l).count(l) == 0);
    }
    let rest = heap.remove(l).remove(r);
    assert forall|c: Cursor<K, V>| rest.contains(c) implies heap.contains(c) && c.layer_index
        != l.layer_index && c.layer_index != r.layer_index by {
        assert(heap.count(c) <= 1);
        assert(heap.contains(c));
        assert(heap.contains(l));
    }
    assert forall|c: Cursor<K, V>| #[trigger] rest.count(c) <= 1 by {
        assert(heap.count(c) <= 1);
    }
    if let MergeResult::Other { emit, left, right } = step.result {
        let (ul, ur) = (l.updated(left), r.updated(right));
        let h1 = pushed(rest, ul);
        let h2 = heap_after(heap, step);
        assert forall|c: Cursor<K, V>| #[trigger] h2.count(c) <= 1 by {
            assert(rest.count(c) <= 1);
            assert(ul == Some(c) || ur == Some(c) ==> !rest.contains(c));
        }
        assert forall|c: Cursor<K, V>| #[trigger] h2.contains(c) implies ul == Some(c) || ur == Some(
            c,
        ) || rest.contains(c) by {
            assert(h1.contains(c) || ur == Some(c));
        }
        assert forall|c: Cursor<K, V>, d: Cursor<K, V>| #[trigger]
            h2.contains(c) && #[trigger] h2.contains(d) && c.layer_index == d.layer_index implies c
            == d by {
            if rest.contains(c) && rest.contains(d) {
                assert(heap.contains(c) && heap.contains(d));
            }
        }
    } else {
        let h = heap.remove(l);
        assert forall|c: Cursor<K, V>| #[trigger] h.count(c) <= 1 by {
            assert(heap.count(c) <= 1);
        }
        assert forall|c: Cursor<K, V>, d: Cursor<K, V>| #[trigger]
            h.contains(c) && #[trigger] h.contains(d) && c.layer_index == d.layer_index implies c
            == d by {
            assert(heap.contains(c) && heap.contains(d));
        }
    }
}

/// The last remaining item is always emitted, without a call of the merge function.
pub proof fn law_last_remaining_item_is_emitted<K: OrdLowerBound, V, F: MergeFn<K, V>>(
    merge_fn: F,
    c: Cursor<K, V>,
    steps: Seq<MergeStep<K, V>>,
    after: Multiset<Cursor<K, V>>,
    current: Current<K, V>,
)
    requires
        may_merge(merge_fn, Multiset::empty().insert(c), steps, after, current),
    ensures
        steps.len() == 0,
        after == Multiset::<Cursor<K, V>>::empty(),
        current == Current::At(c),
{
    let heap = Multiset::<Cursor<K, V>>::empty().insert(c);
    assert(heap.len() == 1);
    assert(after =~= Multiset::empty());
    assert(forall|d: Cursor<K, V>| heap.contains(d) ==> d == c);
}

/// Merging arrives at nothing only when no layer has an item left.
pub proof fn law_nothing_left_at_the_end<K: OrdLowerBound, V, F: MergeFn<K, V>>(
    merge_fn: F,
    heap: Multiset<Cursor<K, V>>,
    steps: Seq<MergeStep<K, V>>,
    after: Multiset<Cursor<K, V>>,
    current: Current<K, V>,
)
    requires
        may_merge(merge_fn, heap, steps, after, current),
        current is Nothing,
    ensures
        after.len() == 0,
    decreases steps.len(),
{
    if heap.len() >= 2 {
        law_nothing_left_at_the_end(
            merge_fn,
            heap_after(heap, steps[0]),
            steps.drop_first(),
            after,
            current,
        );
    }
}

/// If there is no next key, then all layers are queried.
pub proof fn law_without_next_key_all_layers_are_consulted<K: OrdLowerBound, V>(
    layers: Seq<LayerRef<'_, K, V>>,
    state: Consulted<K, V>,
    bound: Bound<&K>,
)
    requires
        0 <= state.count <= layers.len(),
    ensures
        consult(layers, state, None, bound).count == layers.len(),
    decreases layers.len() - state.count,
{
    if state.count < layers.len() {
        law_without_next_key_all_layers_are_consulted(
            layers,
            consult_one(layers, state, bound),
            bound,
        );
    }
}

/// The merger stops querying layers as soon as a key is encountered that equals or precedes the
/// next key.
pub proof fn law_consulting_stops_at_the_next_key<K: OrdLowerBound, V>(
    layers: Seq<LayerRef<'_, K, V>>,
    state: Consulted<K, V>,
    next_key: &K,
    bound: Bound<&K>,
    c: Cursor<K, V>,
)
    requires
        state.heap.contains(c),
        c.item->0.key.lower_le(next_key),
    ensures
        consult(layers, state, Some(next_key), bound) == state,
{
    assert(state.heap.len() > 0);
    assert(!must_consult(state.heap, Some(next_key)));
}

/// Whether the cursors belong to layers that come before position `n`.
pub open spec fn layers_below<K, V>(heap: Multiset<Cursor<K, V>>, n: int) -> bool {
    forall|c: Cursor<K, V>| #[trigger] heap.contains(c) ==> c.layer_index < n
}

/// As long as the layers can be told apart by their indexes, consulting them leaves at most one
/// cursor for each.
pub proof fn law_consulting_keeps_layers_distinct<K: OrdLowerBound, V>(
    layers: Seq<LayerRef<'_, K, V>>,
    state: Consulted<K, V>,
    next_key: Option<&K>,
    bound: Bound<&K>,
)
    requires
        0 <= state.count <= layers.len() <= 0x1_0000,
        layers_distinct(state.heap),
        layers_below(state.heap, state.count),
    ensures
        layers_distinct(consult(layers, state, next_key, bound).heap),
        layers_below(
            consult(layers, state, next_key, bound).heap,
            consult(layers, state, next_key, bound).count,
        ),
    decreases layers.len() - state.count,
{
    if state.count < layers.len() && must_consult(state.heap, next_key) {
        let one = consult_one(layers, state, bound);
        let found = Cursor::at(
            layer_index_of(state.count),
            layers[state.count].layer.items_from(bound),
        );
        assert(found.layer_index == state.count);
        assert(!state.heap.contains(found));
        assert forall|c: Cursor<K, V>| #[trigger] one.heap.contains(c) implies c == found
            || state.heap.contains(c) by {}
        assert forall|c: Cursor<K, V>| #[trigger] one.heap.count(c) <= 1 by {
            assert(state.heap.count(c) <= 1);
        }
        assert forall|c: Cursor<K, V>, d: Cursor<K, V>| #[trigger]
            one.heap.contains(c) && #[trigger] one.heap.contains(d) && c.layer_index
            == d.layer_index implies c == d by {
            if c != found && d != found {
                assert(state.heap.contains(c) && state.heap.contains(d));
            }
        }
        law_consulting_keeps_layers_distinct(layers, one, next_key, bound);
    }
}

/// Merging with a function that always emits an item comes to an end.
pub proof fn law_emitting_merge_terminates<K: OrdLowerBound, V, F: MergeFn<K, V>>(
    merge_fn: F,
    heap: Multiset<Cursor<K, V>>,
)
    requires
        accepts_ordered_pairs::<K, V, F>(merge_fn),
        forall|l: Cursor<K, V>, r: Cursor<K, V>, result: MergeResult<K, V>| #[trigger]
            may_return(merge_fn, l, r, result) ==> emits(result),
    ensures
        merge_terminates(merge_fn, heap),
{
    assert forall|left: Cursor<K, V>, right: Cursor<K, V>| #[trigger]
        is_lowest_pair(heap, left, right) implies accepts(merge_fn, left, right) by {
        assert(heap.remove(left).contains(right));
        assert(heap.contains(right));
        assert(left.precedes(right));
    }
    assert(merge_bounded(merge_fn, heap, 0));
}

/// A merge of one cursor, or of none, comes to an end whatever the merge function accepts.
pub proof fn law_merging_one_cursor_terminates<K: OrdLowerBound, V, F: MergeFn<K, V>>(
    merge_fn: F,
    heap: Multiset<Cursor<K, V>>,
)
    requires
        heap.len() <= 1,
    ensures
        merge_terminates(merge_fn, heap),
{
    assert forall|left: Cursor<K, V>, right: Cursor<K, V>| !#[trigger] is_lowest_pair(
        heap,
        left,
        right,
    ) by {
        if heap.contains(left) {
            assert(heap.remove(left).len() == 0);
        }
    }
    assert(merge_bounded(merge_fn, heap, 0));
}

/// Whether `merge_fn` emits the left item of every pair.
pub open spec fn always_emits_left<K, V, F: MergeFn<K, V>>(merge_fn: F) -> bool {
    forall|l: Cursor<K, V>, r: Cursor<K, V>, result: MergeResult<K, V>| #[trigger]
        may_return(merge_fn, l, r, result) ==> result is EmitLeft
}

/// Whether the items are in the order of their lower bounds.
pub open spec fn sorted<K: OrdLowerBound, V>(items: Seq<Item<K, V>>) -> bool {
    forall|i: int, j: int|
        0 <= i <= j < items.len() ==> (#[trigger] items[i]).key.lower_le(&(#[trigger] items[j]).key)
}

/// Whether every cursor is at the first of its items, and these are sorted.
pub open spec fn cursors_sorted<K: OrdLowerBound, V>(heap: Multiset<Cursor<K, V>>) -> bool {
    forall|c: Cursor<K, V>| #[trigger]
        heap.contains(c) ==> c.rest.len() > 0 && c == Cursor::at(c.layer_index, c.rest) && sorted(
            c.rest,
        )
}

// Emitting the left item of every pair arrives at the lowest cursor, if there is one.
proof fn lemma_emitting_left_merge<K: OrdLowerBound, V, F: MergeFn<K, V>>(
    merge_fn: F,
    heap: Multiset<Cursor<K, V>>,
    steps: Seq<MergeStep<K, V>>,
    after: Multiset<Cursor<K, V>>,
    current: Current<K, V>,
)
    requires
        always_emits_left(merge_fn),
        cursors_sorted(heap),
        may_merge(merge_fn, heap, steps, after, current),
    ensures
        match current {
            Current::At(c) => heap == after.insert(c) && is_lowest(heap, c),
            Current::Emitted(_) => false,
            Current::Nothing => heap.len() == 0 && after.len() == 0,
        },
{
    if heap.len() == 1 {
        let c = current->At_0;
        assert(heap.contains(c));
        assert(after =~= Multiset::empty());
        assert(heap =~= after.insert(c)) by {
            assert(heap.remove(c).len() == 0);
            assert(heap.remove(c) =~= Multiset::empty());
            assert(heap =~= heap.remove(c).insert(c));
        }
        K::lower_le_total(&c.item->0.key, &c.item->0.key);
        assert(forall|d: Cursor<K, V>| heap.contains(d) ==> d == c);
    } else if heap.len() > 1 {
        assert(may_step(merge_fn, heap, steps[0]));
        assert(steps[0].result is EmitLeft);
        assert(heap =~= after.insert(current->At_0));
    }
}

// When the lowest cursor's item is left behind, the items left are the others, and none of the
// cursors goes before it.
proof fn lemma_lowest_left_behind<K: OrdLowerBound, V>(
    after: Multiset<Cursor<K, V>>,
    c: Cursor<K, V>,
)
    requires
        cursors_sorted(after.insert(c)),
        is_lowest(after.insert(c), c),
    ensures
        cursors_sorted(pushed(after, c.updated(ItemOp::Discard))),
        forall|d: Cursor<K, V>| #[trigger]
            pushed(after, c.updated(ItemOp::Discard)).contains(d) ==> c.precedes(d),
        items_left(after.insert(c)) == items_left(
            pushed(after, c.updated(ItemOp::Discard)),
        ).insert(c.item->0),
{
    broadcast use vstd::seq_lib::group_to_multiset_ensures;

    let heap = after.insert(c);
    let on = pushed(after, c.updated(ItemOp::Discard));
    assert(heap.contains(c));
    assert forall|d: Cursor<K, V>| #[trigger] on.contains(d) implies {
        &&& d.rest.len() > 0
        &&& d == Cursor::at(d.layer_index, d.rest)
        &&& sorted(d.rest)
        &&& c.precedes(d)
    } by {
        if after.contains(d) {
            assert(heap.contains(d));
        } else {
            assert(d == c.advanced());
            assert(c.rest.drop_first()[0] == c.rest[1]);
        }
    }
    lemma_items_left_insert(after, c);
    let tail = c.rest.drop_first();
    assert(c.rest =~= seq![c.rest[0]] + tail);
    vstd::seq_lib::lemma_multiset_commutative(seq![c.rest[0]], tail);
    assert(seq![c.rest[0]].to_multiset() =~= Multiset::singleton(c.rest[0])) by {
        assert(seq![c.rest[0]] =~= Seq::empty().push(c.rest[0]));
    }
    if tail.len() > 0 {
        assert(c.advanced().rest == tail);
        lemma_items_left_insert(after, c.advanced());
    } else {
        assert(tail.to_multiset() =~= Multiset::empty());
    }
    assert(items_left(heap) =~= items_left(on).insert(c.rest[0]));
}

/// Emitting the left item of every pair merges sorted layers into one sorted sequence: the item
/// that the merge arrives at has the lowest key, nothing but that item is taken from the layers,
/// and the item after it does not come before it.
pub proof fn law_emitting_left_keeps_order<K: OrdLowerBound, V, F: MergeFn<K, V>>(
    merge_fn: F,
    heap: Multiset<Cursor<K, V>>,
    steps: Seq<MergeStep<K, V>>,
    after: Multiset<Cursor<K, V>>,
    c: Cursor<K, V>,
    next_steps: Seq<MergeStep<K, V>>,
    next_after: Multiset<Cursor<K, V>>,
    next: Current<K, V>,
)
    requires
        always_emits_left(merge_fn),
        cursors_sorted(heap),
        may_merge(merge_fn, heap, steps, after, Current::At(c)),
        may_merge(
            merge_fn,
            pushed(after, c.updated(ItemOp::Discard)),
            next_steps,
            next_after,
            next,
        ),
    ensures
        heap == after.insert(c),
        is_lowest(heap, c),
        forall|d: Cursor<K, V>, i: int|
            #![trigger heap.contains(d), d.rest[i]]
            heap.contains(d) && 0 <= i < d.rest.len() ==> c.rest[0].key.lower_le(&d.rest[i].key),
        cursors_sorted(pushed(after, c.updated(ItemOp::Discard))),
        next.item() matches Some(item) ==> c.item->0.key.lower_le(&item.key),
{
    lemma_emitting_left_merge(merge_fn, heap, steps, after, Current::At(c));
    lemma_lowest_left_behind(after, c);
    assert forall|d: Cursor<K, V>, i: int|
        #![trigger heap.contains(d), d.rest[i]]
        heap.contains(d) && 0 <= i < d.rest.len() implies c.rest[0].key.lower_le(&d.rest[i].key) by {
        assert(c.precedes(d));
        assert(d.rest[0].key.lower_le(&d.rest[i].key));
        K::lower_le_transitive(&c.rest[0].key, &d.rest[0].key, &d.rest[i].key);
    }
    let on = pushed(after, c.updated(ItemOp::Discard));
    lemma_emitting_left_merge(merge_fn, on, next_steps, next_after, next);
    if next is At {
        assert(on.contains(next->At_0));
    }
}

/// All items that the cursors have left.
pub open spec fn items_left<K, V>(heap: Multiset<Cursor<K, V>>) -> Multiset<Item<K, V>>
    decreases heap.len(),
{
    if heap.len() == 0 {
        Multiset::empty()
    } else {
        let c = heap.choose();
        if heap.contains(c) {
            c.rest.to_multiset().add(items_left(heap.remove(c)))
        } else {
            Multiset::empty()
        }
    }
}

// The items left are those of any cursor and those of the others.
proof fn lemma_items_left_remove<K, V>(heap: Multiset<Cursor<K, V>>, c: Cursor<K, V>)
    requires
        heap.contains(c),
    ensures
        items_left(heap) == c.rest.to_multiset().add(items_left(heap.remove(c))),
    decreases heap.len(),
{
    let d = heap.choose();
    assert(heap.contains(d));
    if d != c {
        assert(heap.remove(d).contains(c));
        assert(heap.remove(c).contains(d));
        lemma_items_left_remove(heap.remove(d), c);
        lemma_items_left_remove(heap.remove(c), d);
        assert(heap.remove(d).remove(c) =~= heap.remove(c).remove(d));
        assert(items_left(heap) =~= c.rest.to_multiset().add(items_left(heap.remove(c))));
    }
}

proof fn lemma_items_left_insert<K, V>(heap: Multiset<Cursor<K, V>>, c: Cursor<K, V>)
    ensures
        items_left(heap.insert(c)) == c.rest.to_multiset().add(items_left(heap)),
{
    lemma_items_left_remove(heap.insert(c), c);
    assert(heap.insert(c).remove(c) =~= heap);
}

/// Whether a merge of the cursors may arrive at each of `run`, one after the other, until there is
/// nothing left.
pub open spec fn may_run<K: OrdLowerBound, V, F: MergeFn<K, V>>(
    merge_fn: F,
    heap: Multiset<Cursor<K, V>>,
    run: Seq<Current<K, V>>,
) -> bool
    decreases run.len(),
{
    exists|steps: Seq<MergeStep<K, V>>, after: Multiset<Cursor<K, V>>, current: Current<K, V>|
        {
            &&& #[trigger] may_merge(merge_fn, heap, steps, after, current)
            &&& if run.len() == 0 {
                current.item() is None
            } else {
                &&& current == run[0]
                &&& current.item() is Some
                &&& may_run(merge_fn, left_behind(after, current), run.drop_first())
            }
        }
}

/// The items that a merge arrives at.
pub open spec fn items_of<K, V>(run: Seq<Current<K, V>>) -> Seq<Item<K, V>> {
    run.map_values(|current: Current<K, V>| current.item()->0)
}

/// Whether all items are those of layers, and items with equal lower bounds come in the order of
/// their layers.
pub open spec fn in_layer_order<K: OrdLowerBound, V>(run: Seq<Current<K, V>>) -> bool {
    &&& forall|i: int| 0 <= i < run.len() ==> (#[trigger] run[i]) is At
    &&& forall|i: int, j: int|
        0 <= i < j < run.len() && (#[trigger] run[j]).item()->0.key.lower_le(
            &(#[trigger] run[i]).item()->0.key,
        ) ==> run[i]->At_0.layer_index <= run[j]->At_0.layer_index
}

/// The cursors when the current item has been left behind.
pub open spec fn left_behind<K, V>(
    after: Multiset<Cursor<K, V>>,
    current: Current<K, V>,
) -> Multiset<Cursor<K, V>> {
    match current {
        Current::At(c) => pushed(after, c.updated(ItemOp::Discard)),
        _ => after,
    }
}

/// Emitting the left item of every pair brings every item of the cursors out once, in order. Those
/// whose keys have equal lower bounds come in the order of their layers.
pub proof fn law_emitting_left_brings_every_item_once<K: OrdLowerBound, V, F: MergeFn<K, V>>(
    merge_fn: F,
    heap: Multiset<Cursor<K, V>>,
    run: Seq<Current<K, V>>,
)
    requires
        always_emits_left(merge_fn),
        cursors_sorted(heap),
        may_run(merge_fn, heap, run),
    ensures
        sorted(items_of(run)),
        items_of(run).to_multiset() == items_left(heap),
        in_layer_order(run),
{
    lemma_emitting_left_run(merge_fn, heap, run);
    let items = items_of(run);
    assert forall|i: int, j: int| 0 <= i <= j < items.len() implies (
    #[trigger] items[i]).key.lower_le(&(#[trigger] items[j]).key) by {
        if i < j {
            assert(run[i]->At_0.precedes(run[j]->At_0));
        } else {
            K::lower_le_total(&items[i].key, &items[i].key);
        }
    }
    assert forall|i: int, j: int|
        0 <= i < j < run.len() && (#[trigger] run[j]).item()->0.key.lower_le(
            &(#[trigger] run[i]).item()->0.key,
        ) implies run[i]->At_0.layer_index <= run[j]->At_0.layer_index by {
        assert(run[i]->At_0.precedes(run[j]->At_0));
    }
}

// Each position of the run goes before those after it.
proof fn lemma_emitting_left_run<K: OrdLowerBound, V, F: MergeFn<K, V>>(
    merge_fn: F,
    heap: Multiset<Cursor<K, V>>,
    run: Seq<Current<K, V>>,
)
    requires
        always_emits_left(merge_fn),
        cursors_sorted(heap),
        may_run(merge_fn, heap, run),
    ensures
        items_of(run).to_multiset() == items_left(heap),
        forall|i: int| 0 <= i < run.len() ==> (#[trigger] run[i]) is At,
        run.len() > 0 ==> heap.contains(run[0]->At_0),
        forall|i: int, j: int|
            0 <= i < j < run.len() ==> (#[trigger] run[i])->At_0.precedes((#[trigger] run[j])->At_0),
    decreases run.len(),
{
    broadcast use vstd::seq_lib::group_to_multiset_ensures;

    let items = items_of(run);
    let (steps, after, current) = choose|
        steps: Seq<MergeStep<K, V>>,
        after: Multiset<Cursor<K, V>>,
        current: Current<K, V>,
    |
        {
            &&& #[trigger] may_merge(merge_fn, heap, steps, after, current)
            &&& if run.len() == 0 {
                current.item() is None
            } else {
                &&& current == run[0]
                &&& current.item() is Some
                &&& may_run(merge_fn, left_behind(after, current), run.drop_first())
            }
        };
    lemma_emitting_left_merge(merge_fn, heap, steps, after, current);
    if run.len() == 0 {
        assert(heap.len() == 0) by {
            if current is At {
                assert(heap.contains(current->At_0));
            }
        }
        assert(items.to_multiset() =~= items_left(heap));
    } else {
        let c = current->At_0;
        let on = left_behind(after, current);
        let rest = run.drop_first();
        lemma_lowest_left_behind(after, c);
        lemma_emitting_left_run(merge_fn, on, rest);
        assert(items =~= seq![items[0]] + items_of(rest));
        vstd::seq_lib::lemma_multiset_commutative(seq![items[0]], items_of(rest));
        assert(seq![items[0]] =~= Seq::empty().push(items[0]));
        assert(items.to_multiset() =~= items_left(heap));
        assert forall|i: int, j: int| 0 <= i < j < run.len() implies (
        #[trigger] run[i])->At_0.precedes((#[trigger] run[j])->At_0) by {
            assert(run[j] == rest[j - 1]);
            if i > 0 {
                assert(run[i] == rest[i - 1]);
            } else {
                assert(on.contains(rest[0]->At_0));
                if j > 1 {
                    law_merge_order_is_transitive(c, rest[0]->At_0, rest[j - 1]->At_0);
                }
            }
        }
        assert forall|i: int| 0 <= i < run.len() implies (#[trigger] run[i]) is At by {
            if i > 0 {
                assert(run[i] == rest[i - 1]);
            }
        }
    }
}

/// The items of the layers from position `from` on.
pub open spec fn all_items<K, V>(layers: Seq<LayerRef<'_, K, V>>, from: int) -> Multiset<Item<K, V>>
    decreases layers.len() - from,
{
    if from >= layers.len() {
        Multiset::empty()
    } else {
        layers[from].layer.items_from(Bound::Unbounded).to_multiset().add(
            all_items(layers, from + 1),
        )
    }
}

/// Whether the items of every layer are sorted.
pub open spec fn layers_sorted<K: OrdLowerBound, V>(layers: Seq<LayerRef<'_, K, V>>) -> bool {
    forall|i: int|
        0 <= i < layers.len() ==> sorted((#[trigger] layers[i]).layer.items_from(Bound::Unbounded))
}

proof fn lemma_consulted_from_the_start<K: OrdLowerBound, V>(
    layers: Seq<LayerRef<'_, K, V>>,
    state: Consulted<K, V>,
)
    requires
        0 <= state.count <= layers.len(),
        layers_sorted(layers),
        cursors_sorted(state.heap),
    ensures
        cursors_sorted(consult(layers, state, None, Bound::Unbounded).heap),
        items_left(consult(layers, state, None, Bound::Unbounded).heap) == items_left(
            state.heap,
        ).add(all_items(layers, state.count)),
    decreases layers.len() - state.count,
{
    broadcast use vstd::seq_lib::group_to_multiset_ensures;

    if state.count < layers.len() {
        let one = consult_one(layers, state, Bound::Unbounded);
        let found = Cursor::at(
            layer_index_of(state.count),
            layers[state.count].layer.items_from(Bound::Unbounded),
        );
        if found.item is Some {
            lemma_items_left_insert(state.heap, found);
        } else {
            assert(found.rest.to_multiset() =~= Multiset::empty());
        }
        assert forall|c: Cursor<K, V>| #[trigger] one.heap.contains(c) implies c == found
            || state.heap.contains(c) by {}
        assert(sorted(found.rest));
        lemma_consulted_from_the_start(layers, one);
        assert(items_left(state.heap).add(all_items(layers, state.count)) =~= items_left(
            one.heap,
        ).add(all_items(layers, one.count)));
    } else {
        assert(items_left(state.heap) =~= items_left(state.heap).add(
            all_items(layers, state.count),
        ));
    }
}

/// Searching from the start and emitting the left item of every pair brings every item of sorted
/// layers out once, in order. Those whose keys have equal lower bounds come in the order of their
/// layers.
pub proof fn law_merged_layers_hold_every_item_once<K: OrdLowerBound, V, F: MergeFn<K, V>>(
    merge_fn: F,
    layers: Seq<LayerRef<'_, K, V>>,
    run: Seq<Current<K, V>>,
)
    requires
        always_emits_left(merge_fn),
        layers_sorted(layers),
        may_run(merge_fn, seek_start(layers, Bound::Unbounded).heap, run),
    ensures
        sorted(items_of(run)),
        items_of(run).to_multiset() == all_items(layers, 0),
        in_layer_order(run),
{
    let first = Consulted { count: 0, heap: Multiset::empty(), events: Seq::empty() };
    lemma_consulted_from_the_start(layers, first);
    let heap = seek_start(layers, Bound::Unbounded).heap;
    law_emitting_left_brings_every_item_once(merge_fn, heap, run);
    assert(items_of(run).to_multiset() =~= all_items(layers, 0));
}

/// When all layers have been consulted, advancing goes on with the cursors that are left.
pub proof fn law_advancing_goes_on_with_what_is_left<
    K: Clone + NextKey + OrdLowerBound,
    V: Clone,
    F: MergeFn<K, V>,
>(iter: MergerIterator<'_, '_, K, V, F>, next: Option<K>)
    requires
        iter.consulted() == iter.layers().len(),
    ensures
        iter.next_start(next).heap == left_behind(iter.cursors(), iter.current()),
        iter.next_start(next).count == iter.layers().len(),
{
}

/// The items that the iterator has not gone past: the current one, and those that come after it.
pub open spec fn items_ahead<K: Clone + NextKey + OrdLowerBound, V: Clone, F: MergeFn<K, V>>(
    iter: MergerIterator<'_, '_, K, V, F>,
) -> Multiset<Item<K, V>> {
    match iter.current() {
        Current::At(c) => items_left(iter.cursors().insert(c)),
        Current::Emitted(item) => items_left(iter.cursors()).insert(item),
        Current::Nothing => items_left(iter.cursors()),
    }
}

/// Whether the iterator goes through sorted layers in order: all layers have been consulted, its
/// merge function emits the left item of every pair, and it is at the lowest item, if there is one.
pub open spec fn goes_in_order<K: Clone + NextKey + OrdLowerBound, V: Clone, F: MergeFn<K, V>>(
    iter: MergerIterator<'_, '_, K, V, F>,
) -> bool {
    &&& always_emits_left(iter.merge_fn())
    &&& iter.consulted() == iter.layers().len()
    &&& match iter.current() {
        Current::At(c) => {
            &&& cursors_sorted(iter.cursors().insert(c))
            &&& is_lowest(iter.cursors().insert(c), c)
        },
        Current::Emitted(_) => false,
        Current::Nothing => iter.cursors().len() == 0,
    }
}

/// Searching sorted layers from the start, with a function that emits the left item of every pair,
/// has every item of the layers ahead of it, and goes through them in order.
pub proof fn law_searching_has_every_item_ahead<
    K: Clone + NextKey + OrdLowerBound,
    V: Clone,
    F: MergeFn<K, V>,
>(
    merger: Merger<'_, K, V, F>,
    iter: MergerIterator<'_, '_, K, V, F>,
    steps: Seq<MergeStep<K, V>>,
)
    requires
        always_emits_left(merger.merge_fn()),
        layers_sorted(merger.layers()),
        iter.layers() == merger.layers(),
        iter.merge_fn() == merger.merge_fn(),
        iter.consulted() == seek_start(merger.layers(), Bound::Unbounded).count,
        may_merge(
            merger.merge_fn(),
            seek_start(merger.layers(), Bound::Unbounded).heap,
            steps,
            iter.cursors(),
            iter.current(),
        ),
    ensures
        goes_in_order(iter),
        items_ahead(iter) == all_items(merger.layers(), 0),
{
    let layers = merger.layers();
    let first = Consulted { count: 0, heap: Multiset::empty(), events: Seq::empty() };
    law_without_next_key_all_layers_are_consulted(layers, first, Bound::Unbounded);
    lemma_consulted_from_the_start(layers, first);
    let heap = seek_start(layers, Bound::Unbounded).heap;
    lemma_emitting_left_merge(iter.merge_fn(), heap, steps, iter.cursors(), iter.current());
    assert(items_ahead(iter) =~= all_items(layers, 0));
}

/// Advancing goes past the current item and no other: what was ahead is that item and what is ahead
/// now. The position that it arrives at does not go before the one that it leaves, neither by the
/// key nor, where the lower bounds of the keys are equal, by the layer.
pub proof fn law_advancing_leaves_one_item_behind<
    's,
    'a,
    K: Clone + NextKey + OrdLowerBound,
    V: Clone,
    F: MergeFn<K, V>,
>(
    before: MergerIterator<'s, 'a, K, V, F>,
    after: MergerIterator<'s, 'a, K, V, F>,
    next: Option<K>,
)
    requires
        goes_in_order(before),
        before.current().item() is Some,
        after.merged_from(&before, before.next_start(next)),
    ensures
        goes_in_order(after),
        items_ahead(before) == items_ahead(after).insert(before.current().item()->0),
        after.current() matches Current::At(d) ==> before.current()->At_0.precedes(d),
{
    law_advancing_goes_on_with_what_is_left(before, next);
    let c = before.current()->At_0;
    lemma_lowest_left_behind(before.cursors(), c);
    let on = left_behind(before.cursors(), before.current());
    let steps = choose|steps: Seq<MergeStep<K, V>>| #[trigger]
        may_merge(after.merge_fn(), on, steps, after.cursors(), after.current());
    lemma_emitting_left_merge(after.merge_fn(), on, steps, after.cursors(), after.current());
    if after.current() is At {
        assert(on.contains(after.current()->At_0));
    } else {
        assert(on =~= after.cursors());
    }
}

/// There is no current item only when there is nothing ahead. The current item is one of those
/// ahead, and none of them has a key that goes before its own.
pub proof fn law_current_item_is_the_lowest_ahead<
    K: Clone + NextKey + OrdLowerBound,
    V: Clone,
    F: MergeFn<K, V>,
>(iter: MergerIterator<'_, '_, K, V, F>)
    requires
        goes_in_order(iter),
    ensures
        iter.current().item() is None <==> items_ahead(iter).len() == 0,
        iter.current().item() matches Some(item) ==> {
            &&& items_ahead(iter).contains(item)
            &&& forall|other: Item<K, V>| #[trigger]
                items_ahead(iter).contains(other) ==> item.key.lower_le(&other.key)
        },
{
    if iter.current() is At {
        let c = iter.current()->At_0;
        let heap = iter.cursors().insert(c);
        assert(heap.contains(c));
        lemma_lowest_left_behind(iter.cursors(), c);
        lemma_lowest_of_items_left(heap, c);
    }
}

// None of the items that sorted cursors have left has a key that goes before that of a cursor that
// goes before all of them.
proof fn lemma_lowest_of_items_left<K: OrdLowerBound, V>(
    heap: Multiset<Cursor<K, V>>,
    c: Cursor<K, V>,
)
    requires
        cursors_sorted(heap),
        forall|d: Cursor<K, V>| #[trigger] heap.contains(d) ==> c.precedes(d),
    ensures
        forall|item: Item<K, V>| #[trigger]
            items_left(heap).contains(item) ==> c.item->0.key.lower_le(&item.key),
    decreases heap.len(),
{
    broadcast use vstd::seq_lib::group_to_multiset_ensures;

    if heap.len() > 0 {
        let d = heap.choose();
        assert(heap.contains(d));
        let others = heap.remove(d);
        assert forall|e: Cursor<K, V>| #[trigger] others.contains(e) implies heap.contains(e) by {}
        lemma_lowest_of_items_left(others, c);
        assert forall|item: Item<K, V>| #[trigger]
            items_left(heap).contains(item) implies c.item->0.key.lower_le(&item.key) by {
            if !items_left(others).contains(item) {
                assert(d.rest.to_multiset().contains(item));
                assert(d.rest.contains(item));
                let i = choose|i: int| 0 <= i < d.rest.len() && d.rest[i] == item;
                assert(c.precedes(d));
                assert(d.rest[0].key.lower_le(&d.rest[i].key));
                K::lower_le_transitive(&c.item->0.key, &d.rest[0].key, &item.key);
            }
        }
    }
}

/// Whether each of `iters` is what advancing may make of the one before it, and the last is the
/// first that has no item.
pub open spec fn advances_to_the_end<
    's,
    'a,
    K: Clone + NextKey + OrdLowerBound,
    V: Clone,
    F: MergeFn<K, V>,
>(iters: Seq<MergerIterator<'s, 'a, K, V, F>>) -> bool {
    &&& iters.len() > 0
    &&& iters.last().current().item() is None
    &&& forall|i: int| 0 <= i < iters.len() - 1 ==> #[trigger] advances_at(iters, i)
}

/// Whether there is an item at position `i`, and the next of `iters` is what advancing may make of
/// the one there.
pub open spec fn advances_at<
    's,
    'a,
    K: Clone + NextKey + OrdLowerBound,
    V: Clone,
    F: MergeFn<K, V>,
>(iters: Seq<MergerIterator<'s, 'a, K, V, F>>, i: int) -> bool {
    &&& iters[i].current().item() is Some
    &&& exists|next: Option<K>| #[trigger]
        iters[i].may_go_to(next) && iters[i + 1].merged_from(&iters[i], iters[i].next_start(next))
}

/// What the iterators are at, but for the last, which is at the end.
pub open spec fn currents<
    's,
    'a,
    K: Clone + NextKey + OrdLowerBound,
    V: Clone,
    F: MergeFn<K, V>,
>(iters: Seq<MergerIterator<'s, 'a, K, V, F>>) -> Seq<Current<K, V>> {
    Seq::new((iters.len() - 1) as nat, |i: int| iters[i].current())
}

proof fn lemma_advancing_runs<
    's,
    'a,
    K: Clone + NextKey + OrdLowerBound,
    V: Clone,
    F: MergeFn<K, V>,
>(heap: Multiset<Cursor<K, V>>, iters: Seq<MergerIterator<'s, 'a, K, V, F>>)
    requires
        advances_to_the_end(iters),
        iters[0].consulted() == iters[0].layers().len(),
        exists|steps: Seq<MergeStep<K, V>>| #[trigger]
            may_merge(iters[0].merge_fn(), heap, steps, iters[0].cursors(), iters[0].current()),
    ensures
        may_run(iters[0].merge_fn(), heap, currents(iters)),
    decreases iters.len(),
{
    let first = iters[0];
    let run = currents(iters);
    let steps = choose|steps: Seq<MergeStep<K, V>>| #[trigger]
        may_merge(first.merge_fn(), heap, steps, first.cursors(), first.current());
    if iters.len() > 1 {
        let rest = iters.drop_first();
        assert(advances_at(iters, 0));
        let next = choose|next: Option<K>| #[trigger]
            first.may_go_to(next) && iters[1].merged_from(&first, first.next_start(next));
        law_advancing_goes_on_with_what_is_left(first, next);
        assert forall|i: int| 0 <= i < rest.len() - 1 implies #[trigger] advances_at(rest, i) by {
            assert(advances_at(iters, i + 1));
        }
        assert(rest.last() == iters.last());
        lemma_advancing_runs(left_behind(first.cursors(), first.current()), rest);
        assert(currents(rest) =~= run.drop_first());
    }
    assert(may_merge(first.merge_fn(), heap, steps, first.cursors(), first.current()));
}

/// Searching from the start and then advancing until there is no item, with a function that emits
/// the left item of every pair, brings every item of sorted layers out once, in order. Those whose
/// keys have equal lower bounds come in the order of their layers.
pub proof fn law_advancing_brings_every_item_once<
    's,
    'a,
    K: Clone + NextKey + OrdLowerBound,
    V: Clone,
    F: MergeFn<K, V>,
>(merger: Merger<'a, K, V, F>, iters: Seq<MergerIterator<'s, 'a, K, V, F>>)
    requires
        always_emits_left(merger.merge_fn()),
        layers_sorted(merger.layers()),
        advances_to_the_end(iters),
        iters[0].layers() == merger.layers(),
        iters[0].merge_fn() == merger.merge_fn(),
        iters[0].consulted() == seek_start(merger.layers(), Bound::Unbounded).count,
        exists|steps: Seq<MergeStep<K, V>>| #[trigger]
            may_merge(
                merger.merge_fn(),
                seek_start(merger.layers(), Bound::Unbounded).heap,
                steps,
                iters[0].cursors(),
                iters[0].current(),
            ),
    ensures
        sorted(items_of(currents(iters))),
        items_of(currents(iters)).to_multiset() == all_items(merger.layers(), 0),
        in_layer_order(currents(iters)),
{
    let first = Consulted { count: 0, heap: Multiset::empty(), events: Seq::empty() };
    law_without_next_key_all_layers_are_consulted(merger.layers(), first, Bound::Unbounded);
    let heap = seek_start(merger.layers(), Bound::Unbounded).heap;
    lemma_advancing_runs(heap, iters);
    law_merged_layers_hold_every_item_once(merger.merge_fn(), merger.layers(), currents(iters));
}

/// Whether the items of every cursor have keys that are not less than `key`.
pub open spec fn cursors_not_before<K: OrdLowerBound, V>(heap: Multiset<Cursor<K, V>>, key: K) -> bool {
    forall|c: Cursor<K, V>| #[trigger] heap.contains(c) ==> cursor_not_before(c, key)
}

/// Whether the items of a cursor have keys that are not less than `key`.
pub open spec fn cursor_not_before<K: OrdLowerBound, V>(c: Cursor<K, V>, key: K) -> bool {
    &&& c.item is Some
    &&& key.lower_le(&c.item->0.key)
    &&& items_not_before(c.rest, key)
}

/// Whether the items have keys that are not less than `key`.
pub open spec fn items_not_before<K: OrdLowerBound, V>(items: Seq<Item<K, V>>, key: K) -> bool {
    forall|i: int| 0 <= i < items.len() ==> key.lower_le(&(#[trigger] items[i]).key)
}

/// Whether no result of `merge_fn` goes back: what it emits, and what it puts in place of an item,
/// is not before the left item.
pub open spec fn never_goes_back<K: OrdLowerBound, V, F: MergeFn<K, V>>(merge_fn: F) -> bool {
    forall|l: Cursor<K, V>, r: Cursor<K, V>, result: MergeResult<K, V>| #[trigger]
        may_return(merge_fn, l, r, result) ==> match result {
            MergeResult::EmitLeft => true,
            MergeResult::Other { emit, left, right } => {
                &&& emit matches Some(item) ==> l.item->0.key.lower_le(&item.key)
                &&& left matches ItemOp::Replace(item) ==> l.item->0.key.lower_le(&item.key)
                &&& right matches ItemOp::Replace(item) ==> l.item->0.key.lower_le(&item.key)
            },
        }
}

proof fn lemma_consulted_not_before<K: OrdLowerBound, V>(
    layers: Seq<LayerRef<'_, K, V>>,
    state: Consulted<K, V>,
    key: K,
)
    requires
        0 <= state.count <= layers.len(),
        cursors_not_before(state.heap, key),
        forall|i: int|
            0 <= i < layers.len() ==> items_not_before(
                (#[trigger] layers[i]).layer.items_from(Bound::Included(&key)),
                key,
            ),
    ensures
        cursors_not_before(
            consult(layers, state, Some(&key), Bound::Included(&key)).heap,
            key,
        ),
    decreases layers.len() - state.count,
{
    if state.count < layers.len() && must_consult(state.heap, Some(&key)) {
        let one = consult_one(layers, state, Bound::Included(&key));
        let items = layers[state.count].layer.items_from(Bound::Included(&key));
        let found = Cursor::at(layer_index_of(state.count), items);
        assert forall|c: Cursor<K, V>| #[trigger] one.heap.contains(c) implies cursor_not_before(
            c,
            key,
        ) by {
            if c != found {
                assert(state.heap.contains(c));
            }
        }
        lemma_consulted_not_before(layers, one, key);
    }
}

// Merging with a function that does not go back does not go before `key`.
proof fn lemma_merge_not_before<K: OrdLowerBound, V, F: MergeFn<K, V>>(
    merge_fn: F,
    heap: Multiset<Cursor<K, V>>,
    key: K,
    steps: Seq<MergeStep<K, V>>,
    after: Multiset<Cursor<K, V>>,
    current: Current<K, V>,
)
    requires
        never_goes_back(merge_fn),
        cursors_not_before(heap, key),
        may_merge(merge_fn, heap, steps, after, current),
    ensures
        current.item() matches Some(item) ==> key.lower_le(&item.key),
        cursors_not_before(after, key),
        cursors_not_before(left_behind(after, current), key),
    decreases steps.len(),
{
    if heap.len() >= 2 {
        let step = steps[0];
        let (l, r) = (step.left, step.right);
        assert(may_step(merge_fn, heap, step));
        assert(heap.contains(r)) by {
            assert(heap.remove(l).contains(r));
        }
        let low = l.item->0.key;
        if let MergeResult::Other { emit, left, right } = step.result {
            let rest = heap.remove(l).remove(r);
            let on = heap_after(heap, step);
            if let Some(item) = emit {
                K::lower_le_transitive(&key, &low, &item.key);
            }
            lemma_updated_not_before(l, left, low, key);
            lemma_updated_not_before(r, right, low, key);
            assert forall|c: Cursor<K, V>| #[trigger] on.contains(c) implies cursor_not_before(
                c,
                key,
            ) by {
                if l.updated(left) != Some(c) && r.updated(right) != Some(c) {
                    assert(rest.contains(c));
                    assert(heap.contains(c));
                }
            }
            if emit is None {
                lemma_merge_not_before(merge_fn, on, key, steps.drop_first(), after, current);
            }
        } else {
            assert forall|c: Cursor<K, V>| #[trigger] after.contains(c) implies cursor_not_before(
                c,
                key,
            ) by {
                assert(heap.contains(c));
            }
        }
    }
    if let Current::At(c) = current {
        if heap.len() == 1 {
            assert(heap.contains(c));
            assert(cursor_not_before(c, key));
        }
        if heap.len() < 2 || steps[0].result is EmitLeft {
            lemma_updated_not_before(c, ItemOp::Discard, c.item->0.key, key);
            let on = left_behind(after, current);
            assert forall|d: Cursor<K, V>| #[trigger] on.contains(d) implies cursor_not_before(
                d,
                key,
            ) by {
                if !after.contains(d) {
                    assert(c.updated(ItemOp::Discard) == Some(d));
                }
            }
        }
    }
}

proof fn lemma_updated_not_before<K: OrdLowerBound, V>(
    c: Cursor<K, V>,
    op: ItemOp<K, V>,
    low: K,
    key: K,
)
    requires
        cursor_not_before(c, key),
        key.lower_le(&low),
        op matches ItemOp::Replace(item) ==> low.lower_le(&item.key),
    ensures
        c.updated(op) matches Some(d) ==> cursor_not_before(d, key),
{
    match op {
        ItemOp::Replace(item) => {
            K::lower_le_transitive(&key, &low, &item.key);
        },
        ItemOp::Discard => {
            if c.rest.len() > 0 {
                let tail = c.rest.drop_first();
                assert forall|i: int| 0 <= i < tail.len() implies key.lower_le(
                    &(#[trigger] tail[i]).key,
                ) by {
                    assert(tail[i] == c.rest[i + 1]);
                }
            }
        },
        ItemOp::Keep => {},
    }
}

/// Where a search of every layer for a key finds only items whose keys are not less, and the merge
/// function does not go back, a search for the key is positioned on an item whose key is not less,
/// and so are the items after it from the layers that were consulted.
pub proof fn law_seek_is_not_before_the_key<K: OrdLowerBound, V, F: MergeFn<K, V>>(
    merge_fn: F,
    layers: Seq<LayerRef<'_, K, V>>,
    key: K,
    steps: Seq<MergeStep<K, V>>,
    after: Multiset<Cursor<K, V>>,
    current: Current<K, V>,
)
    requires
        never_goes_back(merge_fn),
        forall|i: int|
            0 <= i < layers.len() ==> items_not_before(
                (#[trigger] layers[i]).layer.items_from(Bound::Included(&key)),
                key,
            ),
        may_merge(
            merge_fn,
            seek_start(layers, Bound::Included(&key)).heap,
            steps,
            after,
            current,
        ),
    ensures
        current.item() matches Some(item) ==> key.lower_le(&item.key),
        cursors_not_before(left_behind(after, current), key),
{
    let first = Consulted { count: 0, heap: Multiset::empty(), events: Seq::empty() };
    lemma_consulted_not_before(layers, first, key);
    let heap = seek_start(layers, Bound::Included(&key)).heap;
    lemma_merge_not_before(merge_fn, heap, key, steps, after, current);
}

/// Merging an item into an empty layer inserts it, without a call of the merge function.
pub proof fn law_merging_into_an_empty_layer_inserts<K: OrdLowerBound, V, F: MergeFn<K, V>>(
    merge_fn: F,
    passed: Seq<Item<K, V>>,
    item: Item<K, V>,
    steps: Seq<MergeStep<K, V>>,
    end: Insertion<K, V>,
)
    requires
        may_insert(
            merge_fn,
            Insertion { passed, held: None, rest: Seq::empty(), item: Some(item) },
            steps,
            end,
        ),
    ensures
        steps.len() == 0,
        end.finished() == passed.push(item),
        end.rest.len() == 0,
{
}

/// An item can be merged into an empty layer whatever the merge function accepts, as there is
/// nothing to merge it with.
pub proof fn law_merging_into_an_empty_layer_ends<K: OrdLowerBound, V, F: MergeFn<K, V>>(
    merge_fn: F,
    passed: Seq<Item<K, V>>,
    item: Item<K, V>,
)
    ensures
        insert_terminates(
            merge_fn,
            Insertion { passed, held: None, rest: Seq::empty(), item: Some(item) },
        ),
{
    assert(insert_bounded(
        merge_fn,
        Insertion { passed, held: None, rest: Seq::empty(), item: Some(item) },
        0,
    ));
}

/// How many of the items at the front have a key that is less than `key`.
pub open spec fn count_below<K: OrdLowerBound, V>(items: Seq<Item<K, V>>, key: K) -> nat
    decreases items.len(),
{
    if items.len() > 0 && !key.lower_le(&items[0].key) {
        1 + count_below(items.drop_first(), key)
    } else {
        0
    }
}

/// Merging an item into a layer with a function that emits the left item of every pair inserts the
/// item after those whose keys are less, and changes nothing else.
pub proof fn law_emitting_left_inserts_in_order<K: OrdLowerBound, V, F: MergeFn<K, V>>(
    merge_fn: F,
    passed: Seq<Item<K, V>>,
    rest: Seq<Item<K, V>>,
    item: Item<K, V>,
    steps: Seq<MergeStep<K, V>>,
    end: Insertion<K, V>,
)
    requires
        always_emits_left(merge_fn),
        may_insert(
            merge_fn,
            Insertion { passed, held: None, rest, item: Some(item) },
            steps,
            end,
        ),
    ensures
        count_below(rest, item.key) <= rest.len(),
        end.finished() == (passed + rest.take(count_below(rest, item.key) as int)).push(item),
        end.rest == rest.skip(count_below(rest, item.key) as int),
    decreases rest.len(),
{
    let start = Insertion { passed, held: None, rest, item: Some(item) };
    if start.has_pair() {
        assert(steps[0].result is EmitLeft);
        if start.target_is_left() {
            let tail = rest.drop_first();
            law_emitting_left_inserts_in_order(
                merge_fn,
                passed.push(rest[0]),
                tail,
                item,
                steps.drop_first(),
                end,
            );
            let n = count_below(tail, item.key) as int;
            assert(passed.push(rest[0]) + tail.take(n) =~= passed + rest.take(n + 1));
            assert(tail.skip(n) =~= rest.skip(n + 1));
        } else {
            assert(passed + rest.take(0) =~= passed);
            assert(rest.skip(0) =~= rest);
        }
    } else {
        assert(passed + rest.take(0) =~= passed);
        assert(rest.skip(0) =~= rest);
    }
}

/// Merging an item into a layer with a function that emits the left item of every pair comes to an
/// end.
pub proof fn law_emitting_left_insertion_terminates<K: OrdLowerBound, V, F: MergeFn<K, V>>(
    merge_fn: F,
    insertion: Insertion<K, V>,
)
    requires
        accepts_ordered_pairs::<K, V, F>(merge_fn),
        always_emits_left(merge_fn),
    ensures
        insert_terminates(merge_fn, insertion),
{
    lemma_emitting_left_insertion_bounded(merge_fn, insertion);
    let n = insertion.rest.len() + if insertion.held is Some {
        1nat
    } else {
        0nat
    };
    assert(insert_bounded(merge_fn, insertion, n));
}

proof fn lemma_emitting_left_insertion_bounded<K: OrdLowerBound, V, F: MergeFn<K, V>>(
    merge_fn: F,
    insertion: Insertion<K, V>,
)
    requires
        accepts_ordered_pairs::<K, V, F>(merge_fn),
        always_emits_left(merge_fn),
    ensures
        insert_bounded(
            merge_fn,
            insertion,
            insertion.rest.len() + if insertion.held is Some {
                1nat
            } else {
                0nat
            },
        ),
    decreases
            insertion.rest.len() + if insertion.held is Some {
                1nat
            } else {
                0nat
            },
{
    if insertion.has_pair() {
        K::lower_le_total(&insertion.source().item->0.key, &insertion.target().item->0.key);
        assert(insertion.left().precedes(insertion.right()));
        assert(accepts(merge_fn, insertion.left(), insertion.right()));
        if insertion.target_is_left() {
            lemma_emitting_left_insertion_bounded(merge_fn, insertion.left_behind());
        }
    }
}

} // verus!
