//! What holds of merging, whatever the merge function.

use crate::lsm_tree::merge::{
    merge_into, Current, Cursor, Insertion, ItemOp, MergeFn, MergeLayerIterator, MergeResult,
    MergeStep, Merger, MergerIterator,
};
use crate::lsm_tree::types::{
    Bound, BoxedLayerIteratorMut, Error, Item, ItemRef, LayerRef, NextKey, OrdLowerBound,
};
use std::cmp::Ordering;
use vstd::multiset::Multiset;
use vstd::prelude::*;

verus! {

/// The items that a cursor has yet to bring: the one that it stands at, which may be a replacement,
/// and those behind it in its layer.
pub open spec fn upcoming<K, V>(c: Cursor<K, V>) -> Seq<Item<K, V>> {
    if c.item is None {
        Seq::empty()
    } else if c.rest.len() == 0 {
        seq![c.item->0]
    } else {
        seq![c.item->0] + c.rest.subrange(1, c.rest.len() as int)
    }
}

/// All items that the cursors have yet to bring.
pub open spec fn pending<K, V>(heap: Multiset<Cursor<K, V>>) -> Multiset<Item<K, V>>
    decreases heap.len(),
{
    if heap.len() == 0 {
        Multiset::empty()
    } else {
        let c = heap.choose();
        if heap.contains(c) {
            upcoming(c).to_multiset().add(pending(heap.remove(c)))
        } else {
            Multiset::empty()
        }
    }
}

/// The items that are ahead of an iterator in the layers: the one that it is at, unless the merge
/// function made it, and those that the cursors have yet to bring.
pub open spec fn ahead<K, V>(
    cursors: Multiset<Cursor<K, V>>,
    current: Current<K, V>,
) -> Multiset<Item<K, V>> {
    match current {
        Current::At(c) => pending(cursors).add(upcoming(c).to_multiset()),
        _ => pending(cursors),
    }
}

/// What an operation takes away.
pub open spec fn taken<K, V>(op: ItemOp<K, V>, item: Option<Item<K, V>>) -> Multiset<Item<K, V>> {
    match op {
        ItemOp::Keep => Multiset::empty(),
        ItemOp::Discard => Multiset::singleton(item->0),
        ItemOp::Replace(_) => Multiset::singleton(item->0),
    }
}

/// What an operation puts in place.
pub open spec fn put<K, V>(op: ItemOp<K, V>) -> Multiset<Item<K, V>> {
    match op {
        ItemOp::Keep => Multiset::empty(),
        ItemOp::Discard => Multiset::empty(),
        ItemOp::Replace(item) => Multiset::singleton(item),
    }
}

/// What a call of the merge function takes away.
pub open spec fn taken_by<K, V>(step: MergeStep<K, V>) -> Multiset<Item<K, V>> {
    match step.result {
        MergeResult::EmitLeft => Multiset::empty(),
        MergeResult::Other { left, right, .. } => taken(left, step.left.item).add(
            taken(right, step.right.item),
        ),
    }
}

/// What a call of the merge function puts in place.
pub open spec fn put_by<K, V>(step: MergeStep<K, V>) -> Multiset<Item<K, V>> {
    match step.result {
        MergeResult::EmitLeft => Multiset::empty(),
        MergeResult::Other { left, right, .. } => put(left).add(put(right)),
    }
}

/// What a call of the merge function emits of its own.
pub open spec fn emitted_by<K, V>(step: MergeStep<K, V>) -> Multiset<Item<K, V>> {
    match step.result {
        MergeResult::Other { emit: Some(item), .. } => Multiset::singleton(item),
        _ => Multiset::empty(),
    }
}

/// What all calls take away.
pub open spec fn all_taken<K, V>(steps: Seq<MergeStep<K, V>>) -> Multiset<Item<K, V>>
    decreases steps.len(),
{
    if steps.len() == 0 {
        Multiset::empty()
    } else {
        taken_by(steps[0]).add(all_taken(steps.drop_first()))
    }
}

/// What all calls put in place.
pub open spec fn all_put<K, V>(steps: Seq<MergeStep<K, V>>) -> Multiset<Item<K, V>>
    decreases steps.len(),
{
    if steps.len() == 0 {
        Multiset::empty()
    } else {
        put_by(steps[0]).add(all_put(steps.drop_first()))
    }
}

/// What all calls emit of their own.
pub open spec fn all_emitted<K, V>(steps: Seq<MergeStep<K, V>>) -> Multiset<Item<K, V>>
    decreases steps.len(),
{
    if steps.len() == 0 {
        Multiset::empty()
    } else {
        emitted_by(steps[0]).add(all_emitted(steps.drop_first()))
    }
}

proof fn lemma_pending_remove<K, V>(heap: Multiset<Cursor<K, V>>, c: Cursor<K, V>)
    requires
        heap.contains(c),
    ensures
        pending(heap) == upcoming(c).to_multiset().add(pending(heap.remove(c))),
    decreases heap.len(),
{
    let d = heap.choose();
    assert(heap.contains(d));
    if d != c {
        assert(heap.remove(d).contains(c));
        assert(heap.remove(c).contains(d));
        lemma_pending_remove(heap.remove(d), c);
        lemma_pending_remove(heap.remove(c), d);
        assert(heap.remove(d).remove(c) =~= heap.remove(c).remove(d));
        assert(pending(heap) =~= upcoming(c).to_multiset().add(pending(heap.remove(c))));
    }
}

proof fn lemma_pending_insert<K, V>(heap: Multiset<Cursor<K, V>>, c: Cursor<K, V>)
    ensures
        pending(heap.insert(c)) == upcoming(c).to_multiset().add(pending(heap)),
{
    lemma_pending_remove(heap.insert(c), c);
    assert(heap.insert(c).remove(c) =~= heap);
}

proof fn lemma_pending_pushed<K, V>(heap: Multiset<Cursor<K, V>>, c: Option<Cursor<K, V>>)
    ensures
        pending(crate::lsm_tree::merge::pushed(heap, c)) == pending(heap).add(
            match c {
                Some(c) => upcoming(c).to_multiset(),
                None => Multiset::empty(),
            },
        ),
{
    if let Some(c) = c {
        lemma_pending_insert(heap, c);
        assert(pending(heap.insert(c)) =~= pending(heap).add(upcoming(c).to_multiset()));
    } else {
        assert(pending(heap) =~= pending(heap).add(Multiset::empty()));
    }
}

// The first of the items, and the others.
proof fn lemma_first_and_others<K, V>(items: Seq<Item<K, V>>)
    requires
        items.len() > 0,
    ensures
        items.to_multiset() == items.subrange(1, items.len() as int).to_multiset().insert(items[0]),
{
    broadcast use vstd::seq_lib::group_to_multiset_ensures;

    let tail = items.subrange(1, items.len() as int);
    assert(items =~= seq![items[0]] + tail);
    vstd::seq_lib::lemma_multiset_commutative(seq![items[0]], tail);
    assert(seq![items[0]] =~= Seq::empty().push(items[0]));
    assert(items.to_multiset() =~= tail.to_multiset().insert(items[0]));
}

// An operation takes away the item of a cursor, or leaves it, and none of those behind it.
proof fn lemma_updated_cursor<K, V>(c: Cursor<K, V>, op: ItemOp<K, V>)
    requires
        c.item is Some,
    ensures
        (match c.updated(op) {
            Some(after) => upcoming(after).to_multiset(),
            None => Multiset::empty(),
        }).add(taken(op, c.item)) == upcoming(c).to_multiset().add(put(op)),
{
    broadcast use vstd::seq_lib::group_to_multiset_ensures;

    lemma_first_and_others(upcoming(c));
    let behind = upcoming(c).subrange(1, upcoming(c).len() as int);
    match op {
        ItemOp::Keep => {},
        ItemOp::Discard => {
            if c.rest.len() > 1 {
                assert(upcoming(c.advanced()) =~= behind);
            } else {
                assert(behind =~= Seq::empty());
                assert(behind.to_multiset() =~= Multiset::empty());
            }
        },
        ItemOp::Replace(item) => {
            let replaced = c.replaced(item);
            lemma_first_and_others(upcoming(replaced));
            assert(upcoming(replaced).subrange(1, upcoming(replaced).len() as int) =~= behind);
        },
    }
    assert((match c.updated(op) {
        Some(after) => upcoming(after).to_multiset(),
        None => Multiset::empty(),
    }).add(taken(op, c.item)) =~= upcoming(c).to_multiset().add(put(op)));
}

/// After a call of the merge function that does not emit the left item, the items that the cursors
/// have yet to bring are those from before, less the item of each side that was discarded or
/// replaced, and with the replacements. So a discarded item takes none of those behind it along.
/// When the left item is emitted, what its cursor has yet to bring is set aside, and nothing else.
pub proof fn law_calls_take_just_the_items_that_they_discard<
    K: OrdLowerBound,
    V,
    F: MergeFn<K, V>,
>(merge_fn: F, heap: Multiset<Cursor<K, V>>, step: MergeStep<K, V>)
    requires
        crate::lsm_tree::merge::may_step(merge_fn, heap, step),
    ensures
        step.result is Other ==> pending(crate::lsm_tree::merge::heap_after(heap, step)).add(
            taken_by(step),
        ) == pending(heap).add(put_by(step)),
        step.result is EmitLeft ==> pending(crate::lsm_tree::merge::heap_after(heap, step)).add(
            upcoming(step.left).to_multiset(),
        ) == pending(heap),
{
    lemma_pending_remove(heap, step.left);
    assert(step.left.precedes(step.right)) by {
        assert(heap.remove(step.left).contains(step.right));
        assert(heap.contains(step.right));
    }
    match step.result {
        MergeResult::EmitLeft => {
            assert(pending(heap.remove(step.left)).add(upcoming(step.left).to_multiset())
                =~= pending(heap));
        },
        MergeResult::Other { emit, left, right } => {
            lemma_pending_remove(heap.remove(step.left), step.right);
            let others = heap.remove(step.left).remove(step.right);
            let between = crate::lsm_tree::merge::pushed(others, step.left.updated(left));
            lemma_pending_pushed(others, step.left.updated(left));
            lemma_pending_pushed(between, step.right.updated(right));
            lemma_updated_cursor(step.left, left);
            lemma_updated_cursor(step.right, right);
            let (l, r) = (
                match step.left.updated(left) {
                    Some(after) => upcoming(after).to_multiset(),
                    None => Multiset::empty(),
                },
                match step.right.updated(right) {
                    Some(after) => upcoming(after).to_multiset(),
                    None => Multiset::empty(),
                },
            );
            let after = crate::lsm_tree::merge::heap_after(heap, step);
            assert forall|x: Item<K, V>| #[trigger]
                pending(after).add(taken_by(step)).count(x) == pending(heap).add(
                    put_by(step),
                ).count(x) by {
                assert(l.add(taken(left, step.left.item)).count(x) == upcoming(
                    step.left,
                ).to_multiset().add(put(left)).count(x));
                assert(r.add(taken(right, step.right.item)).count(x) == upcoming(
                    step.right,
                ).to_multiset().add(put(right)).count(x));
            }
            assert(pending(after).add(taken_by(step)) =~= pending(heap).add(put_by(step)));
        },
    }
}

/// Discarding an item moves its cursor on to the next item of the same layer, with all that is
/// behind it; replacing an item changes no other of its layer; and what is kept stays. This holds of
/// either side.
pub proof fn law_discarding_moves_on_in_the_layer<K: OrdLowerBound, V, F: MergeFn<K, V>>(
    merge_fn: F,
    heap: Multiset<Cursor<K, V>>,
    step: MergeStep<K, V>,
    left: ItemOp<K, V>,
    right: ItemOp<K, V>,
    emit: Option<Item<K, V>>,
)
    requires
        crate::lsm_tree::merge::may_step(merge_fn, heap, step),
        step.result == (MergeResult::Other { emit, left, right }),
    ensures
        moves_on(crate::lsm_tree::merge::heap_after(heap, step), step.left, left),
        moves_on(crate::lsm_tree::merge::heap_after(heap, step), step.right, right),
        forall|c: Cursor<K, V>| #[trigger]
            heap.remove(step.left).remove(step.right).contains(c)
                ==> crate::lsm_tree::merge::heap_after(heap, step).contains(c),
{
    let after = crate::lsm_tree::merge::heap_after(heap, step);
    assert(step.left.precedes(step.right)) by {
        assert(heap.remove(step.left).contains(step.right));
        assert(heap.contains(step.right));
    }
    if left is Discard && step.left.rest.len() > 1 {
        assert(step.left.advanced() == Cursor {
            layer_index: step.left.layer_index,
            item: Some(step.left.rest[1]),
            rest: step.left.rest.subrange(1, step.left.rest.len() as int),
        });
    }
    if right is Discard && step.right.rest.len() > 1 {
        assert(step.right.advanced() == Cursor {
            layer_index: step.right.layer_index,
            item: Some(step.right.rest[1]),
            rest: step.right.rest.subrange(1, step.right.rest.len() as int),
        });
    }
}

/// Whether what an operation makes of a cursor is among `heap`.
pub open spec fn moves_on<K, V>(
    heap: Multiset<Cursor<K, V>>,
    c: Cursor<K, V>,
    op: ItemOp<K, V>,
) -> bool {
    match op {
        ItemOp::Keep => heap.contains(c),
        ItemOp::Discard => c.rest.len() > 1 ==> heap.contains(
            Cursor {
                layer_index: c.layer_index,
                item: Some(c.rest[1]),
                rest: c.rest.subrange(1, c.rest.len() as int),
            },
        ),
        ItemOp::Replace(item) => heap.contains(
            Cursor { layer_index: c.layer_index, item: Some(item), rest: c.rest },
        ),
    }
}

/// The merge function is given the items of the two lowest cursors: no other cursor has a key with a
/// lesser lower bound than theirs, nor the same lower bound in a more recent layer. It is given the
/// lower of the two as its left. When it emits nothing, merging goes on with what it leaves. When it
/// emits the left item, all other cursors stay as they are.
pub proof fn law_the_two_lowest_are_merged<K: OrdLowerBound, V, F: MergeFn<K, V>>(
    merge_fn: F,
    heap: Multiset<Cursor<K, V>>,
    steps: Seq<MergeStep<K, V>>,
    after: Multiset<Cursor<K, V>>,
    current: Current<K, V>,
    c: Cursor<K, V>,
)
    requires
        crate::lsm_tree::merge::may_merge(merge_fn, heap, steps, after, current),
        heap.len() >= 2,
    ensures
        steps.len() > 0,
        heap.contains(steps[0].left),
        heap.remove(steps[0].left).contains(steps[0].right),
        goes_first(steps[0].left, steps[0].right),
        heap.contains(c) ==> goes_first(steps[0].left, c),
        heap.remove(steps[0].left).contains(c) ==> goes_first(steps[0].right, c),
        is_call_of(merge_fn, steps[0]),
        steps[0].result is EmitLeft ==> after == heap.remove(steps[0].left),
        steps[0].result is Other && steps[0].result->emit is None
            ==> crate::lsm_tree::merge::may_merge(
            merge_fn,
            crate::lsm_tree::merge::heap_after(heap, steps[0]),
            steps.subrange(1, steps.len() as int),
            after,
            current,
        ),
        steps[0].result is Other && steps[0].result->emit is Some ==> after
            == crate::lsm_tree::merge::heap_after(heap, steps[0]),
{
    let step = steps[0];
    assert(heap.remove(step.left).contains(step.right));
    assert(heap.contains(step.right));
    assert(steps.drop_first() =~= steps.subrange(1, steps.len() as int));
}

/// Whether `a` has a key whose lower bound is not greater than that of `b`, and is in a layer that
/// does not come after that of `b` if the lower bounds are equal.
pub open spec fn goes_first<K: OrdLowerBound, V>(a: Cursor<K, V>, b: Cursor<K, V>) -> bool {
    &&& a.item is Some
    &&& b.item is Some
    &&& a.item->0.key.lower_le(&b.item->0.key)
    &&& b.item->0.key.lower_le(&a.item->0.key) ==> a.layer_index <= b.layer_index
}

/// Merging goes on until an item is emitted, and no further: by the last call, or as the only one
/// that is left. What it arrives at is the left item of the last call, what that call emits, or what
/// is left; and there is nothing only if nothing is left.
pub proof fn law_merging_stops_at_the_first_item<K: OrdLowerBound, V, F: MergeFn<K, V>>(
    merge_fn: F,
    heap: Multiset<Cursor<K, V>>,
    steps: Seq<MergeStep<K, V>>,
    after: Multiset<Cursor<K, V>>,
    current: Current<K, V>,
)
    requires
        crate::lsm_tree::merge::may_merge(merge_fn, heap, steps, after, current),
    ensures
        heap.len() >= 2 ==> steps.len() > 0,
        forall|i: int|
            0 <= i < steps.len() - 1 ==> (#[trigger] steps[i]).result is Other
                && steps[i].result->emit is None,
        steps.len() > 0 && steps.last().result is EmitLeft ==> current == Current::At(
            steps.last().left,
        ),
        steps.len() > 0 && steps.last().result is Other && steps.last().result->emit is Some
            ==> current == Current::Emitted(steps.last().result->emit->0),
        steps.len() == 0 || steps.last().result is Other && steps.last().result->emit is None
            ==> after.len() == 0 && !(current is Emitted),
        current is Nothing ==> after.len() == 0,
        heap.len() == 0 <==> steps.len() == 0 && current is Nothing,
    decreases steps.len(),
{
    if heap.len() >= 2 {
        let step = steps[0];
        if let MergeResult::Other { emit: None, left, right } = step.result {
            let rest = steps.drop_first();
            law_merging_stops_at_the_first_item(
                merge_fn,
                crate::lsm_tree::merge::heap_after(heap, step),
                rest,
                after,
                current,
            );
            assert forall|i: int| 0 <= i < steps.len() - 1 implies (
            #[trigger] steps[i]).result is Other && steps[i].result->emit is None by {
                if i > 0 {
                    assert(steps[i] == rest[i - 1]);
                }
            }
            if rest.len() > 0 {
                assert(steps.last() == rest.last());
            } else {
                assert(steps.last() == step);
            }
        }
    }
}

/// All items are accounted for, whatever the merge function: those that are ahead after merging are
/// those that the cursors had, less those that the calls discarded or replaced, with the
/// replacements. None is lost, and none comes twice.
pub proof fn law_merging_accounts_for_every_item<K: OrdLowerBound, V, F: MergeFn<K, V>>(
    merge_fn: F,
    heap: Multiset<Cursor<K, V>>,
    steps: Seq<MergeStep<K, V>>,
    after: Multiset<Cursor<K, V>>,
    current: Current<K, V>,
)
    requires
        crate::lsm_tree::merge::may_merge(merge_fn, heap, steps, after, current),
    ensures
        ahead(after, current).add(all_taken(steps)) == pending(heap).add(all_put(steps)),
    decreases steps.len(),
{
    let none = Multiset::<Item<K, V>>::empty();
    if heap.len() == 0 {
        assert(ahead(after, current).add(all_taken(steps)) =~= pending(heap).add(all_put(steps)));
    } else if heap.len() == 1 {
        let c = current->At_0;
        lemma_pending_remove(heap, c);
        assert(heap.remove(c).len() == 0);
        assert(after.len() == 0);
        assert(ahead(after, current).add(all_taken(steps)) =~= pending(heap).add(all_put(steps)));
    } else {
        let step = steps[0];
        let next = crate::lsm_tree::merge::heap_after(heap, step);
        let rest = steps.drop_first();
        law_calls_take_just_the_items_that_they_discard(merge_fn, heap, step);
        if let MergeResult::Other { emit: None, left, right } = step.result {
            law_merging_accounts_for_every_item(merge_fn, next, rest, after, current);
            assert forall|x: Item<K, V>| #[trigger]
                ahead(after, current).add(all_taken(steps)).count(x) == pending(heap).add(
                    all_put(steps),
                ).count(x) by {
                assert(ahead(after, current).add(all_taken(rest)).count(x) == pending(next).add(
                    all_put(rest),
                ).count(x));
                assert(pending(next).add(taken_by(step)).count(x) == pending(heap).add(
                    put_by(step),
                ).count(x));
            }
        } else {
            assert(rest.len() == 0);
            assert(all_taken(rest) =~= Multiset::empty());
            assert(all_put(rest) =~= Multiset::empty());
            assert(all_taken(steps) =~= taken_by(step));
            assert(all_put(steps) =~= put_by(step));
        }
        assert(ahead(after, current).add(all_taken(steps)) =~= pending(heap).add(all_put(steps)));
    }
}

/// The items that are found in the layers from position `from` up to `to` when they are searched for
/// `bound`.
pub open spec fn found_in<K, V>(
    layers: Seq<LayerRef<'_, K, V>>,
    from: int,
    to: int,
    bound: Bound<&K>,
) -> Multiset<Item<K, V>>
    decreases to - from,
{
    if from >= to {
        Multiset::empty()
    } else {
        layers[from].layer.items_from(bound).to_multiset().add(
            found_in(layers, from + 1, to, bound),
        )
    }
}

/// Consulting more layers adds what is found in each of them, and takes nothing away. Each is merged
/// under its own index, from its first item on. It goes on exactly until there is a key that does not
/// exceed the next key, if there is a next key, and until all layers have been consulted otherwise.
pub proof fn law_consulting_adds_what_is_found<K: OrdLowerBound, V>(
    layers: Seq<LayerRef<'_, K, V>>,
    state: crate::lsm_tree::merge::Consulted<K, V>,
    next_key: Option<&K>,
    bound: Bound<&K>,
)
    requires
        0 <= state.count <= layers.len(),
    ensures
        ({
            let end = crate::lsm_tree::merge::consult(layers, state, next_key, bound);
            &&& state.count <= end.count <= layers.len()
            &&& pending(end.heap) == pending(state.heap).add(
                found_in(layers, state.count, end.count, bound),
            )
            &&& next_key is None ==> end.count == layers.len()
            &&& end.count < layers.len() ==> next_key is Some && exists|c: Cursor<K, V>| #[trigger]
                end.heap.contains(c) && c.item->0.key.lower_le(next_key->0)
            &&& next_key is Some && end.count > state.count ==> forall|c: Cursor<K, V>| #[trigger]
                state.heap.contains(c) ==> !c.item->0.key.lower_le(next_key->0)
            &&& next_key is Some ==> forall|i: int|
                state.count <= i < end.count - 1 && (#[trigger] layers[i]).layer.items_from(
                    bound,
                ).len() > 0 ==> !layers[i].layer.items_from(bound)[0].key.lower_le(next_key->0)
            &&& forall|c: Cursor<K, V>| #[trigger]
                state.heap.contains(c) ==> end.heap.contains(c)
            &&& forall|c: Cursor<K, V>| #[trigger]
                end.heap.contains(c) ==> state.heap.contains(c) || exists|i: int|
                    state.count <= i < end.count && is_start_of(layers, i, bound, c)
        }),
    decreases layers.len() - state.count,
{
    broadcast use vstd::seq_lib::group_to_multiset_ensures;

    let end = crate::lsm_tree::merge::consult(layers, state, next_key, bound);
    if state.count < layers.len() && crate::lsm_tree::merge::must_consult(state.heap, next_key) {
        let one = crate::lsm_tree::merge::consult_one(layers, state, bound);
        let items = layers[state.count].layer.items_from(bound);
        let found = Cursor::at(crate::lsm_tree::merge::layer_index_of(state.count), items);
        law_consulting_adds_what_is_found(layers, one, next_key, bound);
        if items.len() > 0 {
            lemma_pending_insert(state.heap, found);
            assert(upcoming(found) =~= items);
            assert(one.heap.contains(found));
        } else {
            assert(items.to_multiset() =~= Multiset::empty());
        }
        assert(pending(one.heap) =~= pending(state.heap).add(items.to_multiset()));
        assert(pending(end.heap) =~= pending(state.heap).add(
            found_in(layers, state.count, end.count, bound),
        ));
        assert forall|c: Cursor<K, V>| #[trigger] state.heap.contains(c) implies end.heap.contains(
            c,
        ) by {
            assert(one.heap.contains(c));
        }
        assert forall|c: Cursor<K, V>| #[trigger] end.heap.contains(c) implies state.heap.contains(
            c,
        ) || exists|i: int| state.count <= i < end.count && is_start_of(layers, i, bound, c) by {
            if one.heap.contains(c) && !state.heap.contains(c) {
                assert(c == found);
                assert(is_start_of(layers, state.count, bound, c));
            }
        }
        if next_key is Some {
            assert forall|i: int|
                state.count <= i < end.count - 1 && (#[trigger] layers[i]).layer.items_from(
                    bound,
                ).len() > 0 implies !layers[i].layer.items_from(bound)[0].key.lower_le(
                next_key->0,
            ) by {
                if i == state.count {
                    assert(one.heap.contains(found));
                }
            }
        }
    } else {
        assert(pending(end.heap) =~= pending(state.heap).add(
            found_in(layers, state.count, end.count, bound),
        ));
    }
}

/// Whether `c` is at the start of what is found in the layer at position `i`, under its index.
pub open spec fn is_start_of<K, V>(
    layers: Seq<LayerRef<'_, K, V>>,
    i: int,
    bound: Bound<&K>,
    c: Cursor<K, V>,
) -> bool {
    &&& c.rest == layers[i].layer.items_from(bound)
    &&& c.rest.len() > 0
    &&& c.item == Some(c.rest[0])
    &&& i < 0x1_0000 ==> c.layer_index == i
}

/// Whether the merge function may have returned the results of the steps.
pub open spec fn are_calls_of<K, V, F: MergeFn<K, V>>(
    merge_fn: F,
    steps: Seq<MergeStep<K, V>>,
) -> bool {
    forall|i: int| 0 <= i < steps.len() ==> #[trigger] is_call_of(merge_fn, steps[i])
}

/// Whether the merge function may have returned the result of a step, for items that are its left
/// and its right.
pub open spec fn is_call_of<K, V, F: MergeFn<K, V>>(merge_fn: F, step: MergeStep<K, V>) -> bool {
    exists|l: &MergeLayerIterator<'_, K, V>, r: &MergeLayerIterator<'_, K, V>|
        l@ == step.left && r@ == step.right && #[trigger] call_ensures(
            merge_fn,
            (l, r),
            step.result,
        )
}

proof fn lemma_steps_are_calls<K: OrdLowerBound, V, F: MergeFn<K, V>>(
    merge_fn: F,
    heap: Multiset<Cursor<K, V>>,
    steps: Seq<MergeStep<K, V>>,
    after: Multiset<Cursor<K, V>>,
    current: Current<K, V>,
)
    requires
        crate::lsm_tree::merge::may_merge(merge_fn, heap, steps, after, current),
    ensures
        are_calls_of(merge_fn, steps),
    decreases steps.len(),
{
    if heap.len() >= 2 {
        let step = steps[0];
        let rest = steps.drop_first();
        assert(is_call_of(merge_fn, step));
        if let MergeResult::Other { emit: None, left, right } = step.result {
            lemma_steps_are_calls(
                merge_fn,
                crate::lsm_tree::merge::heap_after(heap, step),
                rest,
                after,
                current,
            );
            assert forall|i: int| 0 <= i < steps.len() implies #[trigger] is_call_of(
                merge_fn,
                steps[i],
            ) by {
                if i > 0 {
                    assert(steps[i] == rest[i - 1]);
                }
            }
        }
    }
}

/// Searching accounts for every item of the layers that were searched: each is ahead, unless a call
/// of the merge function discarded or replaced it. Without a key, all layers are searched.
pub proof fn law_searching_accounts_for_every_item<
    'a,
    's,
    K: Clone + NextKey + OrdLowerBound,
    V: Clone,
    F: MergeFn<K, V>,
>(merger: &'s Merger<'a, K, V, F>, bound: Bound<&K>, r: Result<
    MergerIterator<'s, 'a, K, V, F>,
    Error,
>)
    requires
        call_ensures(Merger::<'a, K, V, F>::seek, (merger, bound), r),
        r is Ok,
    ensures
        ({
            let iter = r->Ok_0;
            &&& iter.layers() == merger.layers()
            &&& iter.merge_fn() == merger.merge_fn()
            &&& iter.trace() == merger.trace()
            &&& 0 <= iter.consulted() <= iter.layers().len()
            &&& bound is Unbounded ==> iter.consulted() == iter.layers().len()
            &&& exists|steps: Seq<MergeStep<K, V>>|
                {
                    &&& #[trigger] are_calls_of(merger.merge_fn(), steps)
                    &&& ahead(iter.cursors(), iter.current()).add(all_taken(steps)) == found_in(
                        merger.layers(),
                        0,
                        iter.consulted(),
                        bound,
                    ).add(all_put(steps))
                }
        }),
{
    let iter = r->Ok_0;
    let start = crate::lsm_tree::merge::seek_start(merger.layers(), bound);
    let first = crate::lsm_tree::merge::Consulted {
        count: 0,
        heap: Multiset::empty(),
        events: Seq::empty(),
    };
    law_consulting_adds_what_is_found(
        merger.layers(),
        first,
        match bound {
            Bound::Included(key) => Some(key),
            _ => None,
        },
        bound,
    );
    assert(pending(start.heap) =~= found_in(merger.layers(), 0, start.count, bound));
    let steps = choose|steps: Seq<MergeStep<K, V>>| #[trigger]
        crate::lsm_tree::merge::may_merge(
            merger.merge_fn(),
            start.heap,
            steps,
            iter.cursors(),
            iter.current(),
        );
    law_merging_accounts_for_every_item(
        merger.merge_fn(),
        start.heap,
        steps,
        iter.cursors(),
        iter.current(),
    );
    lemma_steps_are_calls(
        merger.merge_fn(),
        start.heap,
        steps,
        iter.cursors(),
        iter.current(),
    );
}

/// Searching from a key stops with the first layer in which a key is found that does not exceed it,
/// and consults all layers if there is none.
pub proof fn law_searching_consults_no_layer_in_vain<
    'a,
    's,
    K: Clone + NextKey + OrdLowerBound,
    V: Clone,
    F: MergeFn<K, V>,
>(
    merger: &'s Merger<'a, K, V, F>,
    key: K,
    r: Result<MergerIterator<'s, 'a, K, V, F>, Error>,
    i: int,
)
    requires
        call_ensures(Merger::<'a, K, V, F>::seek, (merger, Bound::Included(&key)), r),
        r is Ok,
    ensures
        ({
            let found = merger.layers()[i].layer.items_from(Bound::Included(&key));
            let hits = found.len() > 0 && found[0].key.lower_le(&key);
            &&& 0 <= i < r->Ok_0.consulted() - 1 ==> !hits
            &&& r->Ok_0.consulted() < merger.layers().len() ==> exists|j: int|
                {
                    let found = (#[trigger] merger.layers()[j]).layer.items_from(
                        Bound::Included(&key),
                    );
                    0 <= j < r->Ok_0.consulted() && found.len() > 0 && found[0].key.lower_le(&key)
                }
        }),
{
    let layers = merger.layers();
    let bound = Bound::Included(&key);
    let first = crate::lsm_tree::merge::Consulted {
        count: 0,
        heap: Multiset::<Cursor<K, V>>::empty(),
        events: Seq::empty(),
    };
    law_consulting_adds_what_is_found(layers, first, Some(&key), bound);
    let end = crate::lsm_tree::merge::consult(layers, first, Some(&key), bound);
    assert(end == crate::lsm_tree::merge::seek_start(layers, bound));
    if end.count < layers.len() {
        let c = choose|c: Cursor<K, V>| #[trigger]
            end.heap.contains(c) && c.item->0.key.lower_le(&key);
        assert(end.heap.contains(c));
        let j = choose|j: int| 0 <= j < end.count && is_start_of(layers, j, bound, c);
        assert(layers[j].layer.items_from(bound)[0].key.lower_le(&key));
    }
}

/// Whether what is ahead of `after` is what was ahead of `before`, but for the item that it was at,
/// and what is found in the layers that have been consulted since, less what the calls took away and
/// with what they put in place. `next` is the key that comes after the current one.
pub open spec fn accounts_for<K: Clone + NextKey + OrdLowerBound, V: Clone, F: MergeFn<K, V>>(
    before: MergerIterator<'_, '_, K, V, F>,
    after: MergerIterator<'_, '_, K, V, F>,
    steps: Seq<MergeStep<K, V>>,
    next: Option<K>,
) -> bool {
    let layers = before.layers();
    let item = before.current().item();
    let found = if item is None {
        found_in(layers, before.consulted(), after.consulted(), Bound::Unbounded)
    } else if next is Some {
        found_in(layers, before.consulted(), after.consulted(), Bound::Included(&next->0))
    } else {
        found_in(layers, before.consulted(), after.consulted(), Bound::Excluded(&item->0.key))
    };
    let behind = if before.current() is At {
        Multiset::singleton(item->0)
    } else {
        Multiset::empty()
    };
    &&& are_calls_of(before.merge_fn(), steps)
    &&& item is Some && before.consulted() < layers.len() ==> is_next_key(item->0.key, next)
    &&& next is None ==> after.consulted() == layers.len()
    &&& ahead(after.cursors(), after.current()).add(all_taken(steps)).add(behind) == ahead(
        before.cursors(),
        before.current(),
    ).add(found).add(all_put(steps))
}

/// Advancing goes past the item that the iterator is at, and accounts for every other item: those
/// that were ahead and those that are found in the layers that are searched now are ahead, unless a
/// call of the merge function discarded or replaced them. The layers are searched for the key that
/// comes after the current one, where that is known, and behind the current key otherwise; then all
/// of them are. Once all have been searched, none is searched again.
pub proof fn law_advancing_accounts_for_every_item<
    's,
    'a,
    K: Clone + NextKey + OrdLowerBound,
    V: Clone,
    F: MergeFn<K, V>,
>(iter: &mut MergerIterator<'s, 'a, K, V, F>, r: Result<(), Error>)
    requires
        old(iter).wf(),
        old(iter).consulted() <= old(iter).layers().len(),
        old(iter).consulted() >= 0,
        old(iter).current() matches Current::At(c) ==> c.item is Some,
        call_ensures(MergerIterator::<'s, 'a, K, V, F>::advance, (iter,), r),
        r is Ok,
    ensures
        final(iter).layers() == old(iter).layers(),
        final(iter).merge_fn() == old(iter).merge_fn(),
        final(iter).trace() == old(iter).trace(),
        old(iter).consulted() <= final(iter).consulted() <= old(iter).layers().len(),
        exists|steps: Seq<MergeStep<K, V>>, next: Option<K>| #[trigger]
            accounts_for(*old(iter), *final(iter), steps, next),
{
    let before = *old(iter);
    let after = *final(iter);
    let layers = before.layers();
    let next = choose|next: Option<K>| #[trigger]
        before.may_go_to(next) && after.merged_from(&before, before.next_start(next));
    let start = before.next_start(next);
    let search = before.search(next);
    let state = crate::lsm_tree::merge::Consulted {
        count: before.consulted(),
        heap: match before.current() {
            Current::At(c) => crate::lsm_tree::merge::pushed(
                before.cursors(),
                c.updated(ItemOp::Discard),
            ),
            _ => before.cursors(),
        },
        events: Seq::empty(),
    };
    let bound = match search.bound {
        Bound::Unbounded => Bound::Unbounded,
        Bound::Included(key) => Bound::Included(&key),
        Bound::Excluded(key) => Bound::Excluded(&key),
    };
    let next_key = match search.next_key {
        Some(key) => Some(&key),
        None => None,
    };
    assert(start == crate::lsm_tree::merge::consult(layers, state, next_key, bound));
    law_consulting_adds_what_is_found(layers, state, next_key, bound);
    let steps = choose|steps: Seq<MergeStep<K, V>>| #[trigger]
        crate::lsm_tree::merge::may_merge(
            after.merge_fn(),
            start.heap,
            steps,
            after.cursors(),
            after.current(),
        );
    law_merging_accounts_for_every_item(
        after.merge_fn(),
        start.heap,
        steps,
        after.cursors(),
        after.current(),
    );
    lemma_steps_are_calls(
        after.merge_fn(),
        start.heap,
        steps,
        after.cursors(),
        after.current(),
    );
    let behind: Multiset<Item<K, V>> = if before.current() is At {
        Multiset::singleton(before.current().item()->0)
    } else {
        Multiset::empty()
    };
    if let Current::At(c) = before.current() {
        lemma_pending_pushed(before.cursors(), c.updated(ItemOp::Discard));
        lemma_updated_cursor(c, ItemOp::Discard);
        let moved = match c.updated(ItemOp::Discard) {
            Some(d) => upcoming(d).to_multiset(),
            None => Multiset::empty(),
        };
        assert forall|x: Item<K, V>| #[trigger]
            pending(state.heap).add(behind).count(x) == ahead(
                before.cursors(),
                before.current(),
            ).count(x) by {
            assert(moved.add(taken(ItemOp::Discard, c.item)).count(x) == upcoming(
                c,
            ).to_multiset().add(put(ItemOp::Discard)).count(x));
        }
    }
    assert(pending(state.heap).add(behind) =~= ahead(before.cursors(), before.current()));
    let found = found_in(layers, before.consulted(), after.consulted(), bound);
    assert(ahead(after.cursors(), after.current()).add(all_taken(steps)).add(behind) =~= ahead(
        before.cursors(),
        before.current(),
    ).add(found).add(all_put(steps))) by {
        assert forall|x: Item<K, V>| #[trigger]
            ahead(after.cursors(), after.current()).add(all_taken(steps)).add(behind).count(x)
            == ahead(before.cursors(), before.current()).add(found).add(all_put(steps)).count(x) by {
            assert(pending(state.heap).add(behind).count(x) == ahead(
                before.cursors(),
                before.current(),
            ).count(x));
            assert(ahead(after.cursors(), after.current()).add(all_taken(steps)).count(x)
                == pending(start.heap).add(all_put(steps)).count(x));
        }
    }
    if !before.asks_for_next() {
        assert(found_in(layers, layers.len() as int, layers.len() as int, bound)
            =~= Multiset::empty());
    }
    assert(accounts_for(before, after, steps, next));
}

/// Whether `next` is what `key` may give as the key that comes directly after it.
pub open spec fn is_next_key<K: NextKey>(key: K, next: Option<K>) -> bool {
    call_ensures(K::next_key, (&key,), next)
}

/// What an iterator gives is the item that it is at.
pub proof fn law_iterators_give_the_item_that_they_are_at<
    's,
    'a,
    K: Clone + NextKey + OrdLowerBound,
    V: Clone,
    F: MergeFn<K, V>,
>(iter: MergerIterator<'s, 'a, K, V, F>, r: Option<ItemRef<'_, K, V>>)
    requires
        call_ensures(MergerIterator::<'s, 'a, K, V, F>::get, (&iter,), r),
    ensures
        r is None ==> iter.current() is Nothing,
        r is Some ==> match iter.current() {
            Current::At(c) => c.item is Some && *(r->0.key) == c.item->0.key && *(r->0.value)
                == c.item->0.value,
            Current::Emitted(item) => *(r->0.key) == item.key && *(r->0.value) == item.value,
            Current::Nothing => false,
        },
{
}

/// The items of an insertion: those of the layer, a replacement that is not in it yet, and the item
/// that is to go in.
pub open spec fn items_of_insertion<K, V>(insertion: Insertion<K, V>) -> Multiset<Item<K, V>> {
    insertion.passed.to_multiset().add(insertion.rest.to_multiset()).add(
        optional(insertion.held),
    ).add(optional(insertion.item))
}

/// An item that there may be.
pub open spec fn optional<K, V>(item: Option<Item<K, V>>) -> Multiset<Item<K, V>> {
    match item {
        Some(item) => Multiset::singleton(item),
        None => Multiset::empty(),
    }
}

proof fn lemma_pushed_item<K, V>(items: Seq<Item<K, V>>, item: Item<K, V>)
    ensures
        items.push(item).to_multiset() == items.to_multiset().insert(item),
{
    broadcast use vstd::seq_lib::group_to_multiset_ensures;

    assert(items.push(item).to_multiset() =~= items.to_multiset().insert(item));
}

// The items of an insertion after one call of the merge function.
proof fn lemma_insertion_step<K: OrdLowerBound, V>(
    insertion: Insertion<K, V>,
    result: MergeResult<K, V>,
)
    requires
        insertion.has_pair(),
        !insertion.ends_with(result),
    ensures
        items_of_insertion(insertion.merged(result)).add(taken_by(insertion.step(result)))
            == items_of_insertion(insertion).add(put_by(insertion.step(result))).add(
            emitted_by(insertion.step(result)),
        ),
        insertion.passed.len() <= insertion.merged(result).passed.len(),
        insertion.merged(result).passed.take(insertion.passed.len() as int) == insertion.passed,
{
    let step = insertion.step(result);
    let after = insertion.merged(result);
    if insertion.rest.len() > 0 {
        lemma_first_and_others(insertion.rest);
        assert(insertion.rest.drop_first() =~= insertion.rest.subrange(
            1,
            insertion.rest.len() as int,
        ));
        lemma_pushed_item(insertion.passed, insertion.rest[0]);
    }
    if insertion.held is Some {
        lemma_pushed_item(insertion.passed, insertion.held->0);
    }
    if let MergeResult::Other { emit: Some(item), left, right } = result {
        lemma_pushed_item(insertion.passed, item);
    }
    assert(items_of_insertion(after).add(taken_by(step)) =~= items_of_insertion(insertion).add(
        put_by(step),
    ).add(emitted_by(step)));
    assert(after.passed.take(insertion.passed.len() as int) =~= insertion.passed);
}

proof fn lemma_insertion_accounts<K: OrdLowerBound, V, F: MergeFn<K, V>>(
    merge_fn: F,
    insertion: Insertion<K, V>,
    steps: Seq<MergeStep<K, V>>,
    end: Insertion<K, V>,
)
    requires
        crate::lsm_tree::merge::may_insert(merge_fn, insertion, steps, end),
    ensures
        items_of_insertion(end).add(all_taken(steps)) == items_of_insertion(insertion).add(
            all_put(steps),
        ).add(all_emitted(steps)),
        are_calls_of(merge_fn, steps),
        insertion.passed.len() <= end.passed.len(),
        end.passed.take(insertion.passed.len() as int) == insertion.passed,
    decreases steps.len(),
{
    if insertion.has_pair() {
        let step = steps[0];
        let rest = steps.drop_first();
        assert(step == insertion.step(step.result));
        assert(is_call_of(merge_fn, step));
        if insertion.ends_with(step.result) {
            assert(rest.len() == 0);
            assert(all_taken(rest) =~= Multiset::empty());
            assert(all_put(rest) =~= Multiset::empty());
            assert(all_emitted(rest) =~= Multiset::empty());
            assert(all_taken(steps) =~= Multiset::empty());
            assert(all_put(steps) =~= Multiset::empty());
            assert(all_emitted(steps) =~= Multiset::empty());
        } else {
            let next = insertion.merged(step.result);
            lemma_insertion_step(insertion, step.result);
            lemma_insertion_accounts(merge_fn, next, rest, end);
            assert forall|x: Item<K, V>| #[trigger]
                items_of_insertion(end).add(all_taken(steps)).count(x) == items_of_insertion(
                    insertion,
                ).add(all_put(steps)).add(all_emitted(steps)).count(x) by {
                assert(items_of_insertion(end).add(all_taken(rest)).count(x) == items_of_insertion(
                    next,
                ).add(all_put(rest)).add(all_emitted(rest)).count(x));
                assert(items_of_insertion(next).add(taken_by(step)).count(x) == items_of_insertion(
                    insertion,
                ).add(put_by(step)).add(emitted_by(step)).count(x));
            }
            assert forall|i: int| 0 <= i < steps.len() implies #[trigger] is_call_of(
                merge_fn,
                steps[i],
            ) by {
                if i > 0 {
                    assert(steps[i] == rest[i - 1]);
                }
            }
            assert(end.passed.take(insertion.passed.len() as int) =~= end.passed.take(
                next.passed.len() as int,
            ).take(insertion.passed.len() as int));
        }
    }
    if steps.len() == 0 || insertion.has_pair() && insertion.ends_with(steps[0].result) {
        assert(end.passed.take(insertion.passed.len() as int) =~= insertion.passed);
    }
    assert(items_of_insertion(end).add(all_taken(steps)) =~= items_of_insertion(insertion).add(
        all_put(steps),
    ).add(all_emitted(steps)));
}

/// Merging an item into a layer accounts for every item, whatever the merge function: in the end the
/// layer has the items that it had and the item, less those that the calls discarded or replaced, and
/// with the replacements and what the calls emitted. What was before the position stays there as it
/// was, and the changes have taken effect.
pub proof fn law_merging_into_a_layer_accounts_for_every_item<
    'a,
    K: OrdLowerBound,
    V,
    F: MergeFn<K, V>,
>(
    mut_iter: BoxedLayerIteratorMut<'a, K, V>,
    item: Item<K, V>,
    merge_fn: F,
    r: Result<BoxedLayerIteratorMut<'a, K, V>, Error>,
)
    requires
        call_ensures(merge_into::<K, V, F>, (mut_iter, item, &merge_fn), r),
        r is Ok,
    ensures
        ({
            &&& (*(r->Ok_0).iter).committed()
            &&& (*mut_iter.iter).passed().len() <= (*(r->Ok_0).iter).passed().len()
            &&& (*(r->Ok_0).iter).passed().take((*mut_iter.iter).passed().len() as int) == (*mut_iter.iter).passed()
            &&& exists|steps: Seq<MergeStep<K, V>>|
                {
                    &&& #[trigger] are_calls_of(merge_fn, steps)
                    &&& (*(r->Ok_0).iter).passed().to_multiset().add((*(r->Ok_0).iter).remaining().to_multiset()).add(
                        all_taken(steps),
                    ) == (*mut_iter.iter).passed().to_multiset().add((*mut_iter.iter).remaining().to_multiset()).insert(
                        item,
                    ).add(all_put(steps)).add(all_emitted(steps))
                }
        }),
{
    let start = crate::lsm_tree::merge::insertion_start(mut_iter, item);
    let (steps, end) = choose|steps: Seq<MergeStep<K, V>>, end: Insertion<K, V>|
        {
            &&& #[trigger] crate::lsm_tree::merge::may_insert(merge_fn, start, steps, end)
            &&& (*(r->Ok_0).iter).passed() == end.finished()
            &&& (*(r->Ok_0).iter).remaining() == end.rest
        };
    lemma_insertion_accounts(merge_fn, start, steps, end);
    if let Some(x) = end.item {
        lemma_pushed_item(end.passed, x);
        if let Some(y) = end.held {
            lemma_pushed_item(end.passed.push(x), y);
        }
    } else if let Some(y) = end.held {
        lemma_pushed_item(end.passed, y);
    }
    assert((*(r->Ok_0).iter).passed().to_multiset().add((*(r->Ok_0).iter).remaining().to_multiset())
        =~= items_of_insertion(end));
    assert((*mut_iter.iter).passed().to_multiset().add((*mut_iter.iter).remaining().to_multiset()).insert(item)
        =~= items_of_insertion(start));
    assert((*(r->Ok_0).iter).passed().take((*mut_iter.iter).passed().len() as int) =~= end.passed.take(
        (*mut_iter.iter).passed().len() as int,
    ));
}

/// The lower of the layer's item and the item that is to go in is the left one when they are merged;
/// the item goes first where the lower bounds of their keys are equal. Merging ends with the item in
/// its place when it is emitted as the left one, and needs no call when there is nothing to merge it
/// with.
pub proof fn law_insertions_merge_the_lower_as_left<K: OrdLowerBound, V, F: MergeFn<K, V>>(
    merge_fn: F,
    insertion: Insertion<K, V>,
    steps: Seq<MergeStep<K, V>>,
    end: Insertion<K, V>,
)
    requires
        crate::lsm_tree::merge::may_insert(merge_fn, insertion, steps, end),
    ensures
        ({
            let met = if insertion.held is Some {
                insertion.held
            } else if insertion.rest.len() > 0 {
                Some(insertion.rest[0])
            } else {
                None
            };
            &&& steps.len() == 0 <==> met is None || insertion.item is None
            &&& steps.len() == 0 ==> end == insertion
            &&& steps.len() > 0 ==> {
                let goes_in_first = insertion.item->0.key.lower_le(&met->0.key);
                &&& is_call_of(merge_fn, steps[0])
                &&& goes_in_first ==> steps[0].left.item == insertion.item && steps[0].right.item
                    == met
                &&& !goes_in_first ==> steps[0].left.item == met && steps[0].right.item
                    == insertion.item
                &&& goes_in_first && steps[0].result is EmitLeft ==> steps.len() == 1 && end
                    == insertion
            }
        }),
{
}

/// What a merger is made of, and whether it records what it does.
pub proof fn law_mergers_are_made_of_their_layers<
    'a,
    K: Clone + NextKey + OrdLowerBound,
    V: Clone,
    F: MergeFn<K, V>,
>(
    layers: Vec<LayerRef<'a, K, V>>,
    merge_fn: F,
    made: Merger<'a, K, V, F>,
    merger: &mut Merger<'a, K, V, F>,
    v: bool,
)
    requires
        call_ensures(Merger::<'a, K, V, F>::new, (layers, merge_fn), made),
        call_ensures(Merger::<'a, K, V, F>::set_trace, (merger, v), ()),
    ensures
        made.layers() == layers@,
        made.merge_fn() == merge_fn,
        !made.trace(),
        final(merger).layers() == old(merger).layers(),
        final(merger).merge_fn() == old(merger).merge_fn(),
        final(merger).trace() == v,
{
}

/// The item of an iterator has the iterator's key and value. An iterator over one item has that item
/// and no other.
pub proof fn law_merge_iterators_show_their_item<'a, K, V>(
    iter: MergeLayerIterator<'a, K, V>,
    item: ItemRef<'_, K, V>,
    key: &K,
    value: &V,
    layer_index: u16,
    given: Item<K, V>,
    made: MergeLayerIterator<'a, K, V>,
)
    requires
        call_ensures(MergeLayerIterator::<'a, K, V>::item, (&iter,), item),
        call_ensures(MergeLayerIterator::<'a, K, V>::key, (&iter,), key),
        call_ensures(MergeLayerIterator::<'a, K, V>::value, (&iter,), value),
        call_ensures(
            MergeLayerIterator::<'a, K, V>::new_with_item,
            (layer_index, crate::lsm_tree::merge::MergeItem::Item(given)),
            made,
        ),
    ensures
        iter@.item is Some,
        *key == iter@.item->0.key,
        *value == iter@.item->0.value,
        *item.key == *key,
        *item.value == *value,
        made@.layer_index == layer_index,
        upcoming(made@) == seq![given],
{
    assert(upcoming(made@) =~= seq![given]);
}

/// Of two iterators, the one that compares as greater is the one to be merged first: its key has the
/// lesser lower bound, or the same lower bound and a more recent layer. They compare as equal only if
/// they have the same layer and the same lower bound.
pub proof fn law_greatest_iterator_is_merged_first<'a, K: OrdLowerBound, V>(
    a: MergeLayerIterator<'a, K, V>,
    b: MergeLayerIterator<'a, K, V>,
    r: Ordering,
)
    requires
        a@.item is Some,
        b@.item is Some,
        call_ensures(MergeLayerIterator::<'a, K, V>::cmp, (&a, &b), r),
    ensures
        ({
            let (x, y) = (a@.item->0.key, b@.item->0.key);
            let a_first = x.lower_le(&y) && (y.lower_le(&x) ==> a@.layer_index < b@.layer_index);
            let b_first = y.lower_le(&x) && (x.lower_le(&y) ==> b@.layer_index < a@.layer_index);
            &&& r is Greater <==> a_first
            &&& r is Less <==> b_first
            &&& r is Equal <==> x.lower_le(&y) && y.lower_le(&x) && a@.layer_index
                == b@.layer_index
        }),
{
}

/// An item that is borrowed has the key and the value of the item.
pub proof fn law_borrowed_items_are_the_same<'a, K, V>(
    item: &'a Item<K, V>,
    r: ItemRef<'a, K, V>,
    made: Item<K, V>,
)
    ensures
        call_ensures(Item::<K, V>::as_item_ref, (item,), r) ==> *r.key == item.key && *r.value
            == item.value,
        call_ensures(Item::<K, V>::new, (item.key, item.value), made) ==> made == *item,
{
}

/// What has been recorded of a search, when that is asked for: for each layer that was consulted, in
/// order, what was searched for and the first item that was found; and then, for each call of the
/// merge function, its items and what it returned. Otherwise nothing is recorded. Keys and values are
/// recorded as their clones.
pub proof fn law_searches_are_recorded<
    'a,
    's,
    K: Clone + NextKey + OrdLowerBound,
    V: Clone,
    F: MergeFn<K, V>,
>(
    merger: &'s Merger<'a, K, V, F>,
    bound: Bound<&K>,
    r: Result<MergerIterator<'s, 'a, K, V, F>, Error>,
)
    requires
        call_ensures(Merger::<'a, K, V, F>::seek, (merger, bound), r),
        r is Ok,
        forall|a: K, b: K| #[trigger] cloned(a, b) ==> a == b,
        forall|a: V, b: V| #[trigger] cloned(a, b) ==> a == b,
    ensures
        !merger.trace() ==> r->Ok_0.history().len() == 0,
        merger.trace() ==> exists|steps: Seq<MergeStep<K, V>>|
            {
                let history = r->Ok_0.history();
                let count = r->Ok_0.consulted();
                &&& #[trigger] are_calls_of(merger.merge_fn(), steps)
                &&& history.len() == count + steps.len()
                &&& forall|i: int|
                    0 <= i < count ==> is_record_of_search(
                        #[trigger] history[i],
                        bound,
                        merger.layers()[i].layer.items_from(bound),
                    )
                &&& forall|i: int|
                    count <= i < history.len() ==> is_record_of_call(
                        #[trigger] history[i],
                        steps[i - count],
                    )
            },
{
    let layers = merger.layers();
    let iter = r->Ok_0;
    let first = crate::lsm_tree::merge::Consulted {
        count: 0,
        heap: Multiset::<Cursor<K, V>>::empty(),
        events: Seq::empty(),
    };
    let start = crate::lsm_tree::merge::seek_start(layers, bound);
    lemma_searches_recorded(
        layers,
        first,
        match bound {
            Bound::Included(key) => Some(key),
            _ => None,
        },
        bound,
        0,
    );
    let steps = choose|steps: Seq<MergeStep<K, V>>|
        {
            &&& #[trigger] crate::lsm_tree::merge::may_merge(
                merger.merge_fn(),
                start.heap,
                steps,
                iter.cursors(),
                iter.current(),
            )
            &&& crate::lsm_tree::merge::recorded(
                merger.trace(),
                Seq::empty(),
                start.events + crate::lsm_tree::merge::merge_events(steps),
                iter.history(),
            )
        };
    lemma_steps_are_calls(
        merger.merge_fn(),
        start.heap,
        steps,
        iter.cursors(),
        iter.current(),
    );
    if merger.trace() {
        let history = iter.history();
        let count = iter.consulted();
        assert(crate::lsm_tree::merge::clones_exactly::<K>());
        assert(crate::lsm_tree::merge::clones_exactly::<V>());
        assert(history =~= start.events + crate::lsm_tree::merge::merge_events(steps));
        assert forall|i: int| count <= i < history.len() implies is_record_of_call(
            #[trigger] history[i],
            steps[i - count],
        ) by {
            assert(history[i] == crate::lsm_tree::merge::merge_events(steps)[i - count]);
        }
        assert forall|i: int| 0 <= i < count implies is_record_of_search(
            #[trigger] history[i],
            bound,
            layers[i].layer.items_from(bound),
        ) by {
            assert(history[i] == start.events[i]);
            assert(is_record_of_search(
                start.events[i - 0],
                bound,
                layers[i].layer.items_from(bound),
            ));
        }
        assert(are_calls_of(merger.merge_fn(), steps));
    }
}

/// What has been recorded of advancing comes behind what was recorded before: each layer that was
/// consulted only now, and each call of the merge function. The layers were searched for the next key
/// if the current one knows it, and behind the current one otherwise.
pub proof fn law_advances_are_recorded<
    'a,
    's,
    K: Clone + NextKey + OrdLowerBound,
    V: Clone,
    F: MergeFn<K, V>,
>(iter: &mut MergerIterator<'s, 'a, K, V, F>)
    requires
        old(iter).wf(),
        0 <= old(iter).consulted() <= old(iter).layers().len(),
        call_ensures(MergerIterator::<'s, 'a, K, V, F>::advance, (iter,), Ok(())),
        forall|a: K, b: K| #[trigger] cloned(a, b) ==> a == b,
        forall|a: V, b: V| #[trigger] cloned(a, b) ==> a == b,
    ensures
        final(iter).trace() == old(iter).trace(),
        !old(iter).trace() ==> final(iter).history() == old(iter).history(),
        old(iter).trace() ==> exists|steps: Seq<MergeStep<K, V>>, searched: Bound<&K>| #[trigger]
            is_record_of_advance(*old(iter), *final(iter), steps, searched),
{
    let (given, taken) = (*old(iter), *final(iter));
    let next = choose|next: Option<K>| #[trigger]
        given.may_go_to(next) && taken.merged_from(&given, given.next_start(next));
    let search = given.search(next);
    let next_key = match search.next_key {
        Some(key) => Some(&key),
        None => None,
    };
    let bound = match search.bound {
        Bound::Unbounded => Bound::Unbounded,
        Bound::Included(key) => Bound::Included(&key),
        Bound::Excluded(key) => Bound::Excluded(&key),
    };
    let start = given.next_start(next);
    let layers = given.layers();
    let from = given.consulted();
    let first = crate::lsm_tree::merge::Consulted {
        count: from,
        heap: match given.current() {
            Current::At(c) => crate::lsm_tree::merge::pushed(
                given.cursors(),
                c.updated(ItemOp::Discard),
            ),
            _ => given.cursors(),
        },
        events: Seq::empty(),
    };
    assert(start == crate::lsm_tree::merge::consult(layers, first, next_key, bound));
    lemma_searches_recorded(layers, first, next_key, bound, from);
    let steps = choose|steps: Seq<MergeStep<K, V>>|
        {
            &&& #[trigger] crate::lsm_tree::merge::may_merge(
                taken.merge_fn(),
                start.heap,
                steps,
                taken.cursors(),
                taken.current(),
            )
            &&& crate::lsm_tree::merge::recorded(
                taken.trace(),
                given.history(),
                start.events + crate::lsm_tree::merge::merge_events(steps),
                taken.history(),
            )
        };
    lemma_steps_are_calls(
        taken.merge_fn(),
        start.heap,
        steps,
        taken.cursors(),
        taken.current(),
    );
    if given.trace() {
        let (before, after) = (given.history(), taken.history());
        let count = taken.consulted() - from;
        assert(crate::lsm_tree::merge::clones_exactly::<K>());
        assert(crate::lsm_tree::merge::clones_exactly::<V>());
        let events = crate::lsm_tree::merge::merge_events(steps);
        assert(after =~= before + (start.events + events));
        assert(after.take(before.len() as int) =~= before);
        assert forall|i: int| 0 <= i < steps.len() implies is_record_of_call(
            after[before.len() + count + i],
            #[trigger] steps[i],
        ) by {
            assert(after[before.len() + count + i] == events[i]);
        }
        assert forall|i: int| 0 <= i < count implies is_record_of_search(
            #[trigger] after[before.len() + i],
            bound,
            layers[from + i].layer.items_from(bound),
        ) by {
            assert(after[before.len() + i] == start.events[i]);
            assert(is_record_of_search(
                start.events[from + i - from],
                bound,
                layers[from + i].layer.items_from(bound),
            ));
        }
        assert(are_calls_of(given.merge_fn(), steps));
        assert(count > 0 ==> is_search_after(given.current().item(), bound));
        assert(is_record_of_advance(given, taken, steps, bound));
    }
}

/// Whether what has been recorded in going from `given` to `taken` are searches for `searched` in the
/// layers that were consulted on the way, and then the calls `steps`.
pub open spec fn is_record_of_advance<
    K: Clone + NextKey + OrdLowerBound,
    V: Clone,
    F: MergeFn<K, V>,
>(
    given: MergerIterator<'_, '_, K, V, F>,
    taken: MergerIterator<'_, '_, K, V, F>,
    steps: Seq<MergeStep<K, V>>,
    searched: Bound<&K>,
) -> bool {
    let (before, after) = (given.history(), taken.history());
    let count = taken.consulted() - given.consulted();
    &&& are_calls_of(given.merge_fn(), steps)
    &&& count > 0 ==> is_search_after(given.current().item(), searched)
    &&& after.len() == before.len() + count + steps.len()
    &&& after.take(before.len() as int) == before
    &&& forall|i: int|
        0 <= i < count ==> is_record_of_search(
            #[trigger] after[before.len() + i],
            searched,
            given.layers()[given.consulted() + i].layer.items_from(searched),
        )
    &&& forall|i: int|
        0 <= i < steps.len() ==> is_record_of_call(
            after[before.len() + count + i],
            #[trigger] steps[i],
        )
}

/// Whether a search goes on behind `item`: for the key that its key gives as the next one, or for
/// whatever is greater than its key. Where there is no item, there is nothing to go on behind.
pub open spec fn is_search_after<K: NextKey, V>(item: Option<Item<K, V>>, bound: Bound<&K>) -> bool {
    match (item, bound) {
        (None, Bound::Unbounded) => true,
        (Some(item), Bound::Included(next)) => is_next_key(item.key, Some(*next)),
        (Some(item), Bound::Excluded(key)) => is_next_key(item.key, None) && *key == item.key,
        _ => false,
    }
}

/// Whether an event records a search for `bound` that has found `items`.
pub open spec fn is_record_of_search<K, V>(
    event: crate::lsm_tree::merge::TraceEvent<K, V>,
    bound: Bound<&K>,
    items: Seq<Item<K, V>>,
) -> bool {
    &&& event is Search
    &&& match (event->Search_bound, bound) {
        (Bound::Unbounded, Bound::Unbounded) => true,
        (Bound::Included(recorded), Bound::Included(key)) => recorded == *key,
        (Bound::Excluded(recorded), Bound::Excluded(key)) => recorded == *key,
        _ => false,
    }
    &&& items.len() == 0 ==> event->Search_found is None
    &&& items.len() > 0 ==> event->Search_found == Some(items[0])
}

/// Whether an event records a call of the merge function.
pub open spec fn is_record_of_call<K, V>(
    event: crate::lsm_tree::merge::TraceEvent<K, V>,
    step: MergeStep<K, V>,
) -> bool {
    &&& event is Merge
    &&& event->Merge_left == step.left.item->0
    &&& event->Merge_right == step.right.item->0
    &&& event->Merge_result == step.result
}

proof fn lemma_searches_recorded<K: OrdLowerBound, V>(
    layers: Seq<LayerRef<'_, K, V>>,
    state: crate::lsm_tree::merge::Consulted<K, V>,
    next_key: Option<&K>,
    bound: Bound<&K>,
    from: int,
)
    requires
        0 <= from <= state.count <= layers.len(),
        state.events.len() == state.count - from,
        forall|i: int|
            from <= i < state.count ==> is_record_of_search(
                #[trigger] state.events[i - from],
                bound,
                layers[i].layer.items_from(bound),
            ),
    ensures
        ({
            let end = crate::lsm_tree::merge::consult(layers, state, next_key, bound);
            &&& state.count <= end.count <= layers.len()
            &&& end.events.len() == end.count - from
            &&& forall|i: int|
                from <= i < end.count ==> is_record_of_search(
                    #[trigger] end.events[i - from],
                    bound,
                    layers[i].layer.items_from(bound),
                )
        }),
    decreases layers.len() - state.count,
{
    if state.count < layers.len() && crate::lsm_tree::merge::must_consult(state.heap, next_key) {
        let one = crate::lsm_tree::merge::consult_one(layers, state, bound);
        assert forall|i: int| from <= i < one.count implies is_record_of_search(
            #[trigger] one.events[i - from],
            bound,
            layers[i].layer.items_from(bound),
        ) by {
            if i < state.count {
                assert(one.events[i - from] == state.events[i - from]);
            }
        }
        lemma_searches_recorded(layers, one, next_key, bound, from);
    }
}

} // verus!
