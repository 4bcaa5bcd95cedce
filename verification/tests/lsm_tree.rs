//! Merging layers that are held in memory.

use fuchsia_logic::lsm_tree::merge::{
    merge_into, ItemOp, MergeItem, MergeLayerIterator, MergeResult, Merger, TraceEvent,
};
use fuchsia_logic::lsm_tree::types::{
    Bound, BoxedLayerIterator, BoxedLayerIteratorMut, Error, Item, ItemRef, Layer, LayerIterator,
    LayerIteratorMut, LayerRef, NextKey, OrdLowerBound,
};
use std::cmp::Ordering;
use std::fmt::Debug;
use std::ops::Range;

/// Keys that layers are ordered by the ends of.
trait TestBounds: Clone {
    fn range(&self) -> &Range<u64>;
}

#[derive(Clone, Eq, PartialEq, Debug)]
struct TestKey(Range<u64>);

impl TestBounds for TestKey {
    fn range(&self) -> &Range<u64> {
        &self.0
    }
}

impl NextKey for TestKey {
    fn next_key(&self) -> Option<Self> {
        Some(TestKey(self.0.end..self.0.end + 1))
    }
}

impl OrdLowerBound for TestKey {
    fn cmp_lower_bound(&self, other: &Self) -> Ordering {
        self.0.start.cmp(&other.0.start)
    }

    // The starts of ranges are numbers, so these hold.
    fn lower_le_total(_: &Self, _: &Self) {}
    fn lower_le_transitive(_: &Self, _: &Self, _: &Self) {}
}

#[derive(Clone, Eq, PartialEq, Debug)]
struct TestKeyWithDefaultNextKey(Range<u64>);

impl TestBounds for TestKeyWithDefaultNextKey {
    fn range(&self) -> &Range<u64> {
        &self.0
    }
}

impl NextKey for TestKeyWithDefaultNextKey {}

impl OrdLowerBound for TestKeyWithDefaultNextKey {
    fn cmp_lower_bound(&self, other: &Self) -> Ordering {
        self.0.start.cmp(&other.0.start)
    }

    // The starts of ranges are numbers, so these hold.
    fn lower_le_total(_: &Self, _: &Self) {}
    fn lower_le_transitive(_: &Self, _: &Self, _: &Self) {}
}

/// A layer that fails to be searched, or to be read after so many items, if so asked.
struct TestLayer<K> {
    items: Vec<Item<K, i64>>,
    fail_seek: bool,
    fail_after: Option<usize>,
}

struct TestIterator<'a, K> {
    items: &'a [Item<K, i64>],
    fail_after: Option<usize>,
}

fn error() -> Error {
    Error { message: "broken".to_string() }
}

impl<'a, K> LayerIterator<K, i64> for TestIterator<'a, K> {
    fn advance(&mut self) -> Result<(), Error> {
        if let Some(n) = self.fail_after.as_mut() {
            if *n == 0 {
                return Err(error());
            }
            *n -= 1;
        }
        if !self.items.is_empty() {
            self.items = &self.items[1..];
        }
        Ok(())
    }

    fn get(&self) -> Option<ItemRef<'_, K, i64>> {
        self.items.first().map(|item| item.as_item_ref())
    }
}

fn position<K: TestBounds>(items: &[Item<K, i64>], bound: Bound<&K>) -> usize {
    let before = |item: &Item<K, i64>| match bound {
        Bound::Unbounded => false,
        Bound::Included(key) => item.key.range().end < key.range().end,
        Bound::Excluded(key) => item.key.range().end <= key.range().end,
    };
    items.iter().take_while(|item| before(item)).count()
}

impl<K: TestBounds> Layer<K, i64> for TestLayer<K> {
    fn seek<'a>(&'a self, bound: Bound<&K>) -> Result<BoxedLayerIterator<'a, K, i64>, Error> {
        if self.fail_seek {
            return Err(error());
        }
        let items = &self.items[position(&self.items, bound)..];
        Ok(BoxedLayerIterator {
            iter: Box::new(TestIterator { items, fail_after: self.fail_after }),
        })
    }
}

/// A position in items that can be changed.
struct TestIteratorMut<'a> {
    items: &'a mut Vec<Item<TestKey, i64>>,
    position: usize,
    committed: &'a mut bool,
}

impl<'a> LayerIterator<TestKey, i64> for TestIteratorMut<'a> {
    fn advance(&mut self) -> Result<(), Error> {
        self.position += 1;
        Ok(())
    }

    fn get(&self) -> Option<ItemRef<'_, TestKey, i64>> {
        self.items.get(self.position).map(|item| item.as_item_ref())
    }
}

impl<'a> LayerIteratorMut<TestKey, i64> for TestIteratorMut<'a> {
    fn insert(&mut self, item: Item<TestKey, i64>) {
        self.items.insert(self.position, item);
        self.position += 1;
    }

    fn erase(&mut self) {
        self.items.remove(self.position);
    }

    fn commit_and_wait(&mut self) {
        *self.committed = true;
    }
}

/// Makes a function one that can be handed to a merger.
fn merge_fn<K, V, F>(f: F) -> F
where
    F: Fn(&MergeLayerIterator<'_, K, V>, &MergeLayerIterator<'_, K, V>) -> MergeResult<K, V>,
{
    f
}

fn emit_left<K>(
    _left: &MergeLayerIterator<'_, K, i64>,
    _right: &MergeLayerIterator<'_, K, i64>,
) -> MergeResult<K, i64> {
    MergeResult::EmitLeft
}

fn key(key: u64) -> TestKey {
    TestKey(key..key)
}

fn item(at: u64, value: i64) -> Item<TestKey, i64> {
    Item::new(key(at), value)
}

fn layer<K>(items: Vec<Item<K, i64>>) -> TestLayer<K> {
    TestLayer { items, fail_seek: false, fail_after: None }
}

/// A layer for each list of points.
fn point_layers(points: &[&[(u64, i64)]]) -> Vec<TestLayer<TestKey>> {
    points.iter().map(|p| layer(p.iter().map(|(k, v)| item(*k, *v)).collect())).collect()
}

fn refs<K: TestBounds>(layers: &[TestLayer<K>]) -> Vec<LayerRef<'_, K, i64>> {
    layers.iter().map(|layer| LayerRef { layer }).collect()
}

fn check_item<K: PartialEq + Debug>(actual: Option<ItemRef<'_, K, i64>>, key: K, value: i64) {
    let ItemRef { key: k, value: v } = actual.expect("missing item");
    assert_eq!((k, v), (&key, &value));
}

/// Merges from the start and returns what comes out, in order.
fn merge_all<F>(points: &[&[(u64, i64)]], f: F) -> Vec<(u64, i64)>
where
    F: Fn(
        &MergeLayerIterator<'_, TestKey, i64>,
        &MergeLayerIterator<'_, TestKey, i64>,
    ) -> MergeResult<TestKey, i64>,
{
    let layers = point_layers(points);
    let merger = Merger::new(refs(&layers), f);
    let mut iter = merger.seek(Bound::Unbounded).expect("seek failed");
    let mut merged = Vec::new();
    while let Some(ItemRef { key, value }) = iter.get() {
        merged.push((key.0.start, *value));
        iter.advance().expect("advance failed");
    }
    merged
}

#[test]
fn test_emit_left() {
    let merged = merge_all(&[&[(2, 2)], &[(1, 1)]], merge_fn(|_, _| MergeResult::EmitLeft));
    assert_eq!(merged, [(1, 1), (2, 2)]);
}

#[test]
fn test_other_emit() {
    let merged = merge_all(
        &[&[(2, 2)], &[(1, 1)]],
        merge_fn(|_, _| MergeResult::Other {
            emit: Some(item(3, 3)),
            left: ItemOp::Discard,
            right: ItemOp::Discard,
        }),
    );
    assert_eq!(merged, [(3, 3)]);
}

#[test]
fn test_replace_left() {
    // The merger should replace the left item and then after discarding the right item, it should
    // emit the replacement.
    let merged = merge_all(
        &[&[(2, 2)], &[(1, 1)]],
        merge_fn(|_, _| MergeResult::Other {
            emit: None,
            left: ItemOp::Replace(item(3, 3)),
            right: ItemOp::Discard,
        }),
    );
    assert_eq!(merged, [(3, 3)]);
}

#[test]
fn test_replace_right() {
    // The merger should replace the right item and then after discarding the left item, it should
    // emit the replacement.
    let merged = merge_all(
        &[&[(2, 2)], &[(1, 1)]],
        merge_fn(|_, _| MergeResult::Other {
            emit: None,
            left: ItemOp::Discard,
            right: ItemOp::Replace(item(3, 3)),
        }),
    );
    assert_eq!(merged, [(3, 3)]);
}

#[test]
fn test_left_less_than_right() {
    let layers = point_layers(&[&[(2, 2)], &[(1, 1)]]);
    let merger = Merger::new(
        refs(&layers),
        merge_fn(|left, right| {
            assert_eq!((left.key(), left.value()), (&key(1), &1));
            assert_eq!((right.key(), right.value()), (&key(2), &2));
            MergeResult::EmitLeft
        }),
    );
    merger.seek(Bound::Unbounded).expect("seek failed");
}

#[test]
fn test_left_equals_right() {
    let layers = point_layers(&[&[(1, 1)], &[(1, 1)]]);
    let merger = Merger::new(
        refs(&layers),
        merge_fn(|left, right| {
            assert_eq!((left.key(), left.value()), (&key(1), &1));
            assert_eq!((right.key(), right.value()), (&key(1), &1));
            assert_eq!(left.layer_index, 0);
            assert_eq!(right.layer_index, 1);
            MergeResult::EmitLeft
        }),
    );
    merger.seek(Bound::Unbounded).expect("seek failed");
}

#[test]
fn test_keep() {
    // The merger should first replace left and then it should call the merger again with 2 & 3 and
    // end up just keeping 3.
    let merged = merge_all(
        &[&[(2, 2)], &[(1, 1)]],
        merge_fn(|left, right| {
            if left.key() == &key(1) {
                MergeResult::Other {
                    emit: None,
                    left: ItemOp::Replace(item(3, 3)),
                    right: ItemOp::Keep,
                }
            } else {
                assert_eq!(left.key(), &key(2));
                assert_eq!(right.key(), &key(3));
                MergeResult::Other { emit: None, left: ItemOp::Discard, right: ItemOp::Keep }
            }
        }),
    );
    assert_eq!(merged, [(3, 3)]);
}

#[test]
fn test_merge_10_layers() {
    // Some spread of the items over the layers.
    let mut points: Vec<Vec<(u64, i64)>> = vec![vec![]; 10];
    let mut seed: u64 = 12345;
    for i in 0..100 {
        seed = seed.wrapping_mul(6364136223846793005).wrapping_add(1442695040888963407);
        points[(seed >> 33) as usize % 10].push((i, i as i64));
    }
    let points: Vec<&[(u64, i64)]> = points.iter().map(|p| p.as_slice()).collect();
    let merged = merge_all(&points, merge_fn(|_, _| MergeResult::EmitLeft));
    let expected: Vec<(u64, i64)> = (0..100).map(|i| (i, i as i64)).collect();
    assert_eq!(merged, expected);
}

#[test]
fn test_merge_uses_cmp_lower_bound() {
    let layers =
        [layer(vec![Item::new(TestKey(2..3), 2)]), layer(vec![Item::new(TestKey(1..10), 1)])];
    let merger = Merger::new(refs(&layers), emit_left);
    let mut iter = merger.seek(Bound::Unbounded).expect("seek failed");
    check_item(iter.get(), TestKey(1..10), 1);
    iter.advance().unwrap();
    check_item(iter.get(), TestKey(2..3), 2);
    iter.advance().unwrap();
    assert!(iter.get().is_none());
}

/// Merges `new` into a layer, from the first item that is not before `from` on, and returns what
/// the layer then holds.
fn merge_into_points<F>(points: &[(u64, i64)], new: (u64, i64), from: u64, f: F) -> Vec<(u64, i64)>
where
    F: Fn(
        &MergeLayerIterator<'_, TestKey, i64>,
        &MergeLayerIterator<'_, TestKey, i64>,
    ) -> MergeResult<TestKey, i64>,
{
    let mut items: Vec<_> = points.iter().map(|(k, v)| item(*k, *v)).collect();
    let start = position(&items, Bound::Included(&key(from)));
    let mut committed = false;
    let iter = TestIteratorMut { items: &mut items, position: start, committed: &mut committed };
    let iter = BoxedLayerIteratorMut { iter: Box::new(iter) };
    assert!(merge_into(iter, item(new.0, new.1), &f).is_ok());
    assert!(committed);
    items.iter().map(|item| (item.key.0.start, item.value)).collect()
}

#[test]
fn test_merge_into_emit_left() {
    let merged = merge_into_points(
        &[(1, 1), (3, 3)],
        (2, 2),
        1,
        merge_fn(|_, _| MergeResult::EmitLeft),
    );
    assert_eq!(merged, [(1, 1), (2, 2), (3, 3)]);
}

#[test]
fn test_merge_into_emit_last_after_replacing() {
    let merged = merge_into_points(
        &[(1, 1)],
        (2, 2),
        1,
        merge_fn(|left, right| {
            if left.key() == &key(1) {
                assert_eq!(right.key(), &key(2));
                MergeResult::Other {
                    emit: None,
                    left: ItemOp::Replace(item(3, 3)),
                    right: ItemOp::Keep,
                }
            } else {
                assert_eq!(left.key(), &key(2));
                assert_eq!(right.key(), &key(3));
                MergeResult::EmitLeft
            }
        }),
    );
    assert_eq!(merged, [(2, 2), (3, 3)]);
}

#[test]
fn test_merge_into_emit_left_after_replacing() {
    let merged = merge_into_points(
        &[(1, 1)],
        (3, 3),
        1,
        merge_fn(|left, right| {
            if left.key() == &key(1) {
                assert_eq!(right.key(), &key(3));
                MergeResult::Other {
                    emit: None,
                    left: ItemOp::Replace(item(2, 2)),
                    right: ItemOp::Keep,
                }
            } else {
                assert_eq!(left.key(), &key(2));
                assert_eq!(right.key(), &key(3));
                MergeResult::EmitLeft
            }
        }),
    );
    assert_eq!(merged, [(2, 2), (3, 3)]);
}

#[test]
fn test_merge_into_emit_other_and_discard() {
    // This tests emitting in both branches of merge_into, and most of the discard paths.
    let merged = merge_into_points(
        &[(1, 1), (5, 3)],
        (3, 3),
        1,
        merge_fn(|left, right| {
            if left.key() == &key(1) {
                assert_eq!(right.key(), &key(3));
                MergeResult::Other {
                    emit: Some(item(2, 2)),
                    left: ItemOp::Discard,
                    right: ItemOp::Keep,
                }
            } else {
                assert_eq!(left.key(), &key(3));
                assert_eq!(right.key(), &key(5));
                MergeResult::Other {
                    emit: Some(item(4, 4)),
                    left: ItemOp::Discard,
                    right: ItemOp::Discard,
                }
            }
        }),
    );
    assert_eq!(merged, [(2, 2), (4, 4)]);
}

#[test]
fn test_merge_into_replace_and_discard() {
    // This tests replacing the item and discarding the right item (the one remaining untested
    // discard path).
    let merged = merge_into_points(
        &[(1, 1)],
        (3, 3),
        1,
        merge_fn(|_, _| MergeResult::Other {
            emit: Some(item(2, 2)),
            left: ItemOp::Replace(item(4, 4)),
            right: ItemOp::Discard,
        }),
    );
    assert_eq!(merged, [(2, 2), (4, 4)]);
}

#[test]
fn test_merge_into_replace_merge_item() {
    let merged = merge_into_points(
        &[(1, 1), (5, 5)],
        (3, 3),
        1,
        merge_fn(|_, right| {
            if right.key() == &key(3) {
                MergeResult::Other {
                    emit: None,
                    left: ItemOp::Discard,
                    right: ItemOp::Replace(item(2, 2)),
                }
            } else {
                assert_eq!(right.key(), &key(5));
                MergeResult::Other {
                    emit: None,
                    left: ItemOp::Replace(item(4, 4)),
                    right: ItemOp::Discard,
                }
            }
        }),
    );
    assert_eq!(merged, [(4, 4)]);
}

#[test]
fn test_merge_into_replace_existing() {
    let merged = merge_into_points(
        &[(3, 3)],
        (1, 1),
        1,
        merge_fn(|_, right| {
            if right.key() == &key(3) {
                MergeResult::Other {
                    emit: None,
                    left: ItemOp::Keep,
                    right: ItemOp::Replace(item(2, 2)),
                }
            } else {
                MergeResult::EmitLeft
            }
        }),
    );
    assert_eq!(merged, [(1, 1), (2, 2)]);
}

#[test]
fn test_merge_into_discard_last() {
    let merged = merge_into_points(
        &[(1, 1)],
        (2, 2),
        1,
        merge_fn(|_, _| MergeResult::Other {
            emit: None,
            left: ItemOp::Discard,
            right: ItemOp::Keep,
        }),
    );
    assert_eq!(merged, [(2, 2)]);
}

#[test]
fn test_merge_into_empty() {
    let merged = merge_into_points(&[], (1, 1), 1, merge_fn(|_, _| panic!("Unexpected merge!")));
    assert_eq!(merged, [(1, 1)]);
}

fn discard_left(
    _left: &MergeLayerIterator<'_, TestKey, i64>,
    _right: &MergeLayerIterator<'_, TestKey, i64>,
) -> MergeResult<TestKey, i64> {
    MergeResult::Other { emit: None, left: ItemOp::Discard, right: ItemOp::Keep }
}

#[test]
fn test_seek_uses_minimum_number_of_iterators() {
    let layers = point_layers(&[&[(1, 1)], &[(1, 2)]]);
    let merger = Merger::new(refs(&layers), discard_left);
    // Seek should only search in the first layer, so no merge should take place, and we'll know if
    // it has because we'll see a different value (2 rather than 1).
    let iter = merger.seek(Bound::Included(&key(1))).expect("seek failed");
    check_item(iter.get(), key(1), 1);
}

/// Checks that merging the given layers produces the `expected` sequence of items starting from
/// `start`.
fn test_advance<K>(layers: &[&[(K, i64)]], start: Bound<&K>, expected: &[(K, i64)])
where
    K: TestBounds + NextKey + OrdLowerBound + PartialEq + Debug,
{
    let layers: Vec<TestLayer<K>> = layers
        .iter()
        .map(|items| layer(items.iter().map(|(k, v)| Item::new(k.clone(), *v)).collect()))
        .collect();
    let merger = Merger::new(refs(&layers), emit_left);
    let mut iter = merger.seek(start).expect("seek failed");
    for (k, v) in expected {
        check_item(iter.get(), k.clone(), *v);
        iter.advance().expect("advance failed");
    }
    assert!(iter.get().is_none());
}

#[test]
fn test_seek_skips_replaced_items() {
    // The 1..2 and the 2..3 items are overwritten and merging them should be skipped.
    test_advance(
        &[
            &[(TestKey(1..2), 1), (TestKey(2..3), 2)],
            &[(TestKey(1..2), 3), (TestKey(2..3), 4), (TestKey(3..4), 5)],
        ],
        Bound::Included(&TestKey(1..2)),
        &[(TestKey(1..2), 1), (TestKey(2..3), 2), (TestKey(3..4), 5)],
    );
}

#[test]
fn test_advance_skips_replaced_items_at_end() {
    // Like the last test, the 1..2 item is overwritten and seeking for it should skip the merge but
    // this time, the keys are at the end.
    test_advance(
        &[&[(TestKey(1..2), 1)], &[(TestKey(1..2), 2)]],
        Bound::Included(&TestKey(1..2)),
        &[(TestKey(1..2), 1)],
    );
}

#[test]
fn test_seek_skips_replaced_items_with_default_next_key() {
    // This differs from the earlier test because without a next key, the overwritten 2..3 key will
    // get merged because the merger is unable to know whether the 2..3 is the immediate successor
    // to 1..2.
    let key = |range| TestKeyWithDefaultNextKey(range);
    test_advance(
        &[
            &[(key(1..2), 1), (key(2..3), 2)],
            &[(key(1..2), 3), (key(2..3), 4), (key(3..4), 5)],
        ],
        Bound::Included(&key(1..2)),
        &[(key(1..2), 1), (key(2..3), 2), (key(2..3), 4), (key(3..4), 5)],
    );
}

#[test]
fn test_advance_skips_replaced_items_at_end_with_default_next_key() {
    // Like the last test, the 1..2 item is overwritten and seeking for it should skip the merge but
    // this time, the keys are at the end.
    let key = |range| TestKeyWithDefaultNextKey(range);
    test_advance(
        &[&[(key(1..2), 1)], &[(key(1..2), 2)]],
        Bound::Included(&key(1..2)),
        &[(key(1..2), 1)],
    );
}

#[test]
fn test_seek_less_than() {
    let layers = point_layers(&[&[(1, 1)], &[(2, 2)]]);
    let merger = Merger::new(refs(&layers), discard_left);
    // Search for a key before 1..1. This should find the 2..2 key because of our merge function.
    let iter = merger.seek(Bound::Included(&key(0))).expect("seek failed");
    check_item(iter.get(), key(2), 2);
}

#[test]
fn test_seek_to_end() {
    let layers = point_layers(&[&[(1, 1)], &[(2, 2)]]);
    let merger = Merger::new(refs(&layers), discard_left);
    let iter = merger.seek(Bound::Included(&key(3))).expect("seek failed");
    assert!(iter.get().is_none());
}

#[test]
fn test_merge_all_discarded() {
    let layers = point_layers(&[&[(2, 2)], &[(1, 1)]]);
    let merger = Merger::new(
        refs(&layers),
        merge_fn(|_, _| MergeResult::Other {
            emit: None,
            left: ItemOp::Discard,
            right: ItemOp::Discard,
        }),
    );
    let iter = merger.seek(Bound::Unbounded).expect("seek failed");
    assert!(iter.get().is_none());
}

#[test]
fn trace_records_what_is_done() {
    let layers = point_layers(&[&[(2, 2)], &[(1, 1)]]);
    let mut merger = Merger::new(refs(&layers), emit_left);
    assert!(merger.seek(Bound::Unbounded).unwrap().history.is_empty());
    merger.set_trace(true);
    let mut iter = merger.seek(Bound::Unbounded).unwrap();
    assert_eq!(
        iter.history,
        [
            TraceEvent::Search { bound: Bound::Unbounded, found: Some(item(2, 2)) },
            TraceEvent::Search { bound: Bound::Unbounded, found: Some(item(1, 1)) },
            TraceEvent::Merge {
                left: item(1, 1),
                right: item(2, 2),
                result: MergeResult::EmitLeft,
            },
        ]
    );
    // There is nothing to merge the last item with.
    iter.advance().unwrap();
    check_item(iter.get(), key(2), 2);
    assert_eq!(iter.history.len(), 3);
}

#[test]
fn trace_records_searches_and_results() {
    let layers = point_layers(&[&[(1, 1)], &[(3, 3)], &[]]);
    let result = || MergeResult::Other {
        emit: Some(item(4, 4)),
        left: ItemOp::Replace(item(5, 5)),
        right: ItemOp::Discard,
    };
    let mut merger = Merger::new(refs(&layers), merge_fn(|_, _| result()));
    merger.set_trace(true);
    let mut iter = merger.seek(Bound::Included(&key(1))).unwrap();
    let mut expected =
        vec![TraceEvent::Search { bound: Bound::Included(key(1)), found: Some(item(1, 1)) }];
    assert_eq!(iter.history, expected);
    // The first layer has no more items, so the others are searched for the key after 1.
    iter.advance().unwrap();
    check_item(iter.get(), key(3), 3);
    let next = || Bound::Included(TestKey(1..2));
    expected.push(TraceEvent::Search { bound: next(), found: Some(item(3, 3)) });
    expected.push(TraceEvent::Search { bound: next(), found: None });
    assert_eq!(iter.history, expected);

    let mut iter = merger.seek(Bound::Unbounded).unwrap();
    check_item(iter.get(), key(4), 4);
    let merge = TraceEvent::Merge { left: item(1, 1), right: item(3, 3), result: result() };
    assert_eq!(iter.history.last(), Some(&merge));
    iter.advance().unwrap();
    check_item(iter.get(), key(5), 5);
}

#[test]
fn equal_keys_come_in_the_order_of_their_layers() {
    let merged = merge_all(
        &[&[(2, 10), (2, 11)], &[(1, 20), (2, 21), (3, 22)], &[(2, 30), (3, 31)]],
        emit_left,
    );
    assert_eq!(merged, [(1, 20), (2, 10), (2, 11), (2, 21), (2, 30), (3, 22), (3, 31)]);
}

#[test]
fn merge_order_is_by_key_and_then_by_layer() {
    let at = |layer_index: u16, start: u64, value: i64| {
        MergeLayerIterator::new_with_item(layer_index, MergeItem::Item(item(start, value)))
    };
    // The one that goes first is the greatest.
    assert_eq!(at(1, 1, 0).cmp(&at(0, 2, 0)), Ordering::Greater);
    assert_eq!(at(0, 2, 0).cmp(&at(1, 1, 0)), Ordering::Less);
    assert_eq!(at(0, 1, 0).cmp(&at(1, 1, 0)), Ordering::Greater);
    assert_eq!(at(1, 1, 0).cmp(&at(0, 1, 0)), Ordering::Less);
    // Values do not matter, nor do the ends of keys.
    assert_eq!(at(1, 1, 3).cmp(&at(1, 1, 4)), Ordering::Equal);
    let wide = MergeItem::Item(Item::new(TestKey(1..9), 0));
    let wide = MergeLayerIterator::new_with_item(1, wide);
    assert_eq!(wide.cmp(&at(1, 1, 0)), Ordering::Equal);
}

#[test]
fn one_layer_is_not_merged() {
    let points: &[(u64, i64)] = &[(1, 1), (2, 2)];
    let merged = merge_all(&[points], merge_fn(|_, _| panic!("Unexpected merge!")));
    assert_eq!(merged, points);
}

/// A position at an item of a layer that cannot be read on.
struct BrokenIteratorMut {
    item: Item<TestKey, i64>,
}

impl LayerIterator<TestKey, i64> for BrokenIteratorMut {
    fn advance(&mut self) -> Result<(), Error> {
        Err(error())
    }

    fn get(&self) -> Option<ItemRef<'_, TestKey, i64>> {
        Some(self.item.as_item_ref())
    }
}

impl LayerIteratorMut<TestKey, i64> for BrokenIteratorMut {
    fn insert(&mut self, _item: Item<TestKey, i64>) {}
    fn erase(&mut self) {}
    fn commit_and_wait(&mut self) {}
}

#[test]
fn errors_are_handed_on_when_merging_into_a_layer() {
    let merge_at = |at: u64| {
        let iter =
            BoxedLayerIteratorMut { iter: Box::new(BrokenIteratorMut { item: item(at, at as i64) }) };
        merge_into(iter, item(2, 2), &emit_left).err().map(|error| error.message)
    };
    assert_eq!(merge_at(1), Some("broken".to_string()));
    // The layer need not be read on for an item that comes first.
    assert_eq!(merge_at(3), None);
}

#[test]
fn no_layers_hold_nothing() {
    let layers: Vec<TestLayer<TestKey>> = vec![];
    let merger = Merger::new(refs(&layers), emit_left);
    assert!(merger.seek(Bound::Unbounded).unwrap().get().is_none());
    assert!(merger.seek(Bound::Included(&key(1))).unwrap().get().is_none());
}

#[test]
fn errors_of_layers_are_handed_on() {
    let mut layers = point_layers(&[&[(1, 1), (2, 2)], &[(3, 3)]]);
    layers[1].fail_seek = true;
    let merger = Merger::new(refs(&layers), emit_left);
    assert_eq!(merger.seek(Bound::Unbounded).err().unwrap().message, "broken");
    // The layer that cannot be searched is not needed to find a key in the one before.
    assert!(merger.seek(Bound::Included(&key(1))).is_ok());

    let mut layers = point_layers(&[&[(1, 1), (2, 2)], &[(3, 3)]]);
    layers[0].fail_after = Some(1);
    let merger = Merger::new(refs(&layers), emit_left);
    let mut iter = merger.seek(Bound::Unbounded).unwrap();
    iter.advance().unwrap();
    check_item(iter.get(), key(2), 2);
    assert_eq!(iter.advance().err().unwrap().message, "broken");
}

#[test]
fn items_of_one_layer_are_not_merged_with_each_other() {
    let merged = merge_all(
        &[&[(1, 1), (2, 2), (5, 5)], &[(3, 3), (4, 4)]],
        merge_fn(|left, right| {
            assert_ne!(left.layer_index, right.layer_index);
            MergeResult::EmitLeft
        }),
    );
    assert_eq!(merged, [(1, 1), (2, 2), (3, 3), (4, 4), (5, 5)]);
}

#[test]
fn merge_iterators_show_their_item() {
    let iter = MergeLayerIterator::new_with_item(3, MergeItem::Item(item(7, 9)));
    assert_eq!(iter.layer_index, 3);
    assert_eq!((iter.key(), iter.value()), (&key(7), &9));
    assert_eq!(iter.item().value, &9);
    // Without an underlying iterator there is no item at its position.
    let iter = MergeLayerIterator::<TestKey, i64>::new_with_item(4, MergeItem::Iter);
    assert_eq!(iter.layer_index, 4);
}
