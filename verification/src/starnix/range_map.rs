//! A map from ranges of addresses to values.

use vstd::prelude::*;

verus! {

/// Values that can be copied exactly.
pub trait Duplicate: Sized {
    fn duplicate(&self) -> (r: Self)
        ensures
            r == *self,
    ;
}

/// The addresses from `start` up to `end`, and their value.
pub struct Entry<V> {
    pub start: u64,
    pub end: u64,
    pub value: V,
}

impl<V> Entry<V> {
    pub open spec fn covers(self, point: int) -> bool {
        self.start <= point < self.end
    }
}

/// A map from non-overlapping, non-empty ranges to values. A range can be split into two separate
/// ranges if some of its addresses are removed or if another value is inserted over them. Adjacent
/// ranges are not merged, even if their values are the same.
pub struct RangeMap<V> {
    // In the order of the addresses.
    entries: Vec<Entry<V>>,
}

/// Whether the entries are not empty, and each ends before the next one starts.
pub open spec fn in_order<V>(entries: Seq<Entry<V>>) -> bool {
    &&& forall|i: int| 0 <= i < entries.len() ==> (#[trigger] entries[i]).start < entries[i].end
    &&& forall|i: int, j: int|
        0 <= i < j < entries.len() ==> (#[trigger] entries[i]).end <= (#[trigger] entries[j]).start
}

/// The entry that covers `point`, if there is one.
pub open spec fn lookup<V>(entries: Seq<Entry<V>>, point: int) -> Option<Entry<V>> {
    if exists|i: int| 0 <= i < entries.len() && (#[trigger] entries[i]).covers(point) {
        Some(
            entries[choose|i: int| 0 <= i < entries.len() && (#[trigger] entries[i]).covers(point)],
        )
    } else {
        None
    }
}

/// What is left of the entry at `point` when the addresses from `start` up to `end` are taken out.
pub open spec fn trimmed<V>(entry: Option<Entry<V>>, start: u64, end: u64, point: int) -> Option<
    Entry<V>,
> {
    match entry {
        None => None,
        Some(entry) => if start >= end {
            Some(entry)
        } else if start <= point < end {
            None
        } else if point < start {
            Some(
                Entry {
                    end: if entry.end < start {
                        entry.end
                    } else {
                        start
                    },
                    ..entry
                },
            )
        } else {
            Some(
                Entry {
                    start: if entry.start > end {
                        entry.start
                    } else {
                        end
                    },
                    ..entry
                },
            )
        },
    }
}

/// Entries that are in order cover each point at most once.
pub proof fn lemma_lookup<V>(entries: Seq<Entry<V>>, i: int, point: int)
    requires
        in_order(entries),
        0 <= i < entries.len(),
        entries[i].covers(point),
    ensures
        lookup(entries, point) == Some(entries[i]),
{
    let j = choose|j: int| 0 <= j < entries.len() && (#[trigger] entries[j]).covers(point);
    assert(entries[j].covers(point));
    if j < i {
        assert(entries[j].end <= entries[i].start);
    } else if i < j {
        assert(entries[i].end <= entries[j].start);
    }
}

impl<V> RangeMap<V> {
    /// The ranges with their values, in the order of the addresses.
    pub closed spec fn entries(&self) -> Seq<Entry<V>> {
        self.entries@
    }

    pub open spec fn wf(&self) -> bool {
        in_order(self.entries())
    }

    /// The range that `point` is in, with its value.
    pub open spec fn at(&self, point: int) -> Option<Entry<V>> {
        lookup(self.entries(), point)
    }

    pub fn new() -> (r: Self)
        ensures
            r.wf(),
            r.entries() == Seq::<Entry<V>>::empty(),
            forall|point: int| #[trigger] r.at(point) is None,
    {
        RangeMap { entries: Vec::new() }
    }

    /// How many ranges there are.
    pub fn len(&self) -> (r: usize)
        ensures
            r == self.entries().len(),
    {
        self.entries.len()
    }

    /// The range at a position, with its value.
    pub fn entry(&self, i: usize) -> (r: &Entry<V>)
        requires
            i < self.entries().len(),
        ensures
            *r == self.entries()[i as int],
    {
        &self.entries[i]
    }

    fn position(&self, point: u64) -> (r: Option<usize>)
        requires
            self.wf(),
        ensures
            match r {
                Some(i) => i < self.entries.len() && self.entries[i as int].covers(point as int)
                    && self.at(point as int) == Some(self.entries[i as int]),
                None => self.at(point as int) is None,
            },
    {
        let mut i: usize = 0;
        while i < self.entries.len()
            invariant
                i <= self.entries.len(),
                self.wf(),
                forall|j: int| 0 <= j < i ==> !(#[trigger] self.entries[j]).covers(point as int),
            decreases self.entries.len() - i,
        {
            if self.entries[i].start <= point && point < self.entries[i].end {
                proof {
                    lemma_lookup(self.entries@, i as int, point as int);
                }
                return Some(i);
            }
            i += 1;
        }
        None
    }

    /// Returns the range that contains `point`, with its value.
    pub fn get(&self, point: u64) -> (r: Option<&Entry<V>>)
        requires
            self.wf(),
        ensures
            match r {
                Some(entry) => self.at(point as int) == Some(*entry) && entry.covers(point as int),
                None => self.at(point as int) is None,
            },
    {
        match self.position(point) {
            Some(i) => Some(&self.entries[i]),
            None => None,
        }
    }

    /// Gives the range that contains `point` another value.
    pub fn replace(&mut self, point: u64, value: V)
        requires
            old(self).wf(),
            old(self).at(point as int) is Some,
        ensures
            final(self).wf(),
            final(self).entries().len() == old(self).entries().len(),
            forall|p: int| #[trigger]
                final(self).at(p) == (match old(self).at(p) {
                    Some(entry) => if entry.covers(point as int) {
                        Some(Entry { value, ..entry })
                    } else {
                        Some(entry)
                    },
                    None => None,
                }),
    {
        if let Some(i) = self.position(point) {
            let start: u64 = self.entries[i].start;
            let end: u64 = self.entries[i].end;
            self.entries.set(i, Entry { start, end, value });
            proof {
                let before = old(self).entries@;
                let after = self.entries@;
                assert forall|a: int, b: int| 0 <= a < b < after.len() implies (
                #[trigger] after[a]).end <= (#[trigger] after[b]).start by {
                    assert(before[a].end <= before[b].start);
                }
                assert forall|p: int| #[trigger] self.at(p) == (match old(self).at(p) {
                    Some(entry) => if entry.covers(point as int) {
                        Some(Entry { value, ..entry })
                    } else {
                        Some(entry)
                    },
                    None => None,
                }) by {
                    if exists|j: int| 0 <= j < before.len() && (#[trigger] before[j]).covers(p) {
                        let j = choose|j: int|
                            0 <= j < before.len() && (#[trigger] before[j]).covers(p);
                        lemma_lookup(before, j, p);
                        assert(after[j].covers(p));
                        lemma_lookup(after, j, p);
                        if j < i {
                            assert(before[j].end <= before[i as int].start);
                        } else if j > i {
                            assert(before[i as int].end <= before[j].start);
                        }
                    } else {
                        assert forall|j: int| 0 <= j < after.len() implies !(
                        #[trigger] after[j]).covers(p) by {
                            assert(!before[j].covers(p));
                        }
                    }
                }
            }
        }
    }
}

impl<V: Duplicate> RangeMap<V> {
    /// Takes out the addresses from `start` up to `end`. Ranges that reach beyond are trimmed.
    pub fn remove(&mut self, start: u64, end: u64)
        requires
            old(self).wf(),
        ensures
            final(self).wf(),
            forall|p: int| #[trigger]
                final(self).at(p) == trimmed(old(self).at(p), start, end, p),
    {
        if start >= end {
            return;
        }
        let ghost before = self.entries@;
        let mut kept: Vec<Entry<V>> = Vec::new();
        let mut i: usize = 0;
        while i < self.entries.len()
            invariant
                i <= self.entries.len(),
                self.entries@ == before,
                in_order(before),
                in_order(kept@),
                start < end,
                forall|k: int, j: int|
                    0 <= k < kept.len() && i <= j < before.len() ==> (#[trigger] kept[k]).end <= (
                    #[trigger] before[j]).start,
                forall|k: int, p: int|
                    #![trigger kept[k].covers(p)]
                    0 <= k < kept.len() && kept[k].covers(p) ==> exists|j: int|
                        0 <= j < i && (#[trigger] before[j]).covers(p) && trimmed(
                            Some(before[j]),
                            start,
                            end,
                            p,
                        ) == Some(kept[k]),
                forall|j: int, p: int|
                    #![trigger before[j].covers(p)]
                    0 <= j < i && before[j].covers(p) && !(start <= p < end) ==> exists|k: int|
                        0 <= k < kept.len() && (#[trigger] kept[k]).covers(p) && trimmed(
                            Some(before[j]),
                            start,
                            end,
                            p,
                        ) == Some(kept[k]),
            decreases self.entries.len() - i,
        {
            let ghost kept0 = kept@;
            let s: u64 = self.entries[i].start;
            let e: u64 = self.entries[i].end;
            if s < start {
                let left_end: u64 = if e < start {
                    e
                } else {
                    start
                };
                kept.push(
                    Entry { start: s, end: left_end, value: self.entries[i].value.duplicate() },
                );
            }
            let ghost kept1 = kept@;
            if e > end {
                let right_start: u64 = if s > end {
                    s
                } else {
                    end
                };
                kept.push(
                    Entry { start: right_start, end: e, value: self.entries[i].value.duplicate() },
                );
            }
            proof {
                let n = i as int;
                assert forall|k: int, p: int|
                    #![trigger kept[k].covers(p)]
                    0 <= k < kept.len() && kept[k].covers(p) implies exists|j: int|
                    0 <= j < n + 1 && (#[trigger] before[j]).covers(p) && trimmed(
                        Some(before[j]),
                        start,
                        end,
                        p,
                    ) == Some(kept[k]) by {
                    if k < kept0.len() {
                        assert(kept0[k].covers(p));
                    } else {
                        assert(before[n].covers(p));
                    }
                }
                assert forall|j: int, p: int|
                    #![trigger before[j].covers(p)]
                    0 <= j < n + 1 && before[j].covers(p) && !(start <= p < end) implies exists|k: int|
                    0 <= k < kept.len() && (#[trigger] kept[k]).covers(p) && trimmed(
                        Some(before[j]),
                        start,
                        end,
                        p,
                    ) == Some(kept[k]) by {
                    if j < n {
                        let k = choose|k: int|
                            0 <= k < kept0.len() && (#[trigger] kept0[k]).covers(p) && trimmed(
                                Some(before[j]),
                                start,
                                end,
                                p,
                            ) == Some(kept0[k]);
                        assert(kept[k] == kept0[k]);
                    } else if p < start {
                        assert(kept[kept0.len() as int].covers(p));
                    } else {
                        assert(kept[kept1.len() as int].covers(p));
                    }
                }
            }
            i += 1;
        }
        self.entries = kept;
        proof {
            let after = self.entries@;
            assert forall|p: int| #[trigger] self.at(p) == trimmed(
                old(self).at(p),
                start,
                end,
                p,
            ) by {
                if exists|k: int| 0 <= k < after.len() && (#[trigger] after[k]).covers(p) {
                    let k = choose|k: int| 0 <= k < after.len() && (#[trigger] after[k]).covers(p);
                    lemma_lookup(after, k, p);
                    assert(after[k].covers(p));
                    let j = choose|j: int|
                        0 <= j < before.len() && (#[trigger] before[j]).covers(p) && trimmed(
                            Some(before[j]),
                            start,
                            end,
                            p,
                        ) == Some(after[k]);
                    lemma_lookup(before, j, p);
                } else if exists|j: int| 0 <= j < before.len() && (#[trigger] before[j]).covers(p) {
                    let j = choose|j: int| 0 <= j < before.len() && (#[trigger] before[j]).covers(p);
                    lemma_lookup(before, j, p);
                    assert(before[j].covers(p));
                    assert(start <= p < end);
                }
            }
        }
    }

    /// Maps the addresses from `start` up to `end` to `value`, in place of whatever they were
    /// mapped to. An empty range changes nothing.
    pub fn insert(&mut self, start: u64, end: u64, value: V)
        requires
            old(self).wf(),
        ensures
            final(self).wf(),
            forall|p: int| #[trigger]
                final(self).at(p) == if start <= p < end {
                    Some(Entry { start, end, value })
                } else {
                    trimmed(old(self).at(p), start, end, p)
                },
    {
        if start >= end {
            return;
        }
        self.remove(start, end);
        let ghost before = self.entries@;
        let ghost removed = *self;
        proof {
            assert forall|j: int| 0 <= j < before.len() implies (#[trigger] before[j]).end <= start
                || before[j].start >= end by {
                if before[j].end > start && before[j].start < end {
                    let p = if before[j].start > start {
                        before[j].start as int
                    } else {
                        start as int
                    };
                    assert(before[j].covers(p));
                    lemma_lookup(before, j, p);
                    assert(removed.at(p) == trimmed(old(self).at(p), start, end, p));
                }
            }
        }
        let mut i: usize = 0;
        while i < self.entries.len() && self.entries[i].start < end
            invariant
                i <= self.entries.len(),
                self.entries@ == before,
                in_order(before),
                start < end,
                forall|j: int| 0 <= j < before.len() ==> (#[trigger] before[j]).end <= start
                    || before[j].start >= end,
                forall|j: int| 0 <= j < i ==> (#[trigger] before[j]).end <= start,
            decreases self.entries.len() - i,
        {
            i += 1;
        }
        proof {
            assert forall|j: int| i <= j < before.len() implies (#[trigger] before[j]).start >= end by {
                if j > i {
                    assert(before[i as int].end <= before[j].start);
                }
            }
        }
        self.entries.insert(i, Entry { start, end, value });
        proof {
            let after = self.entries@;
            let n = i as int;
            assert(after[n] == (Entry { start, end, value }));
            assert(forall|j: int| 0 <= j < n ==> #[trigger] after[j] == before[j]);
            assert(forall|j: int| n < j < after.len() ==> #[trigger] after[j] == before[j - 1]);
            assert forall|a: int, b: int| 0 <= a < b < after.len() implies (#[trigger] after[a]).end
                <= (#[trigger] after[b]).start by {
                if a < n && b > n {
                    assert(before[a].end <= before[b - 1].start);
                } else if a < n && b < n {
                    assert(before[a].end <= before[b].start);
                } else if a > n {
                    assert(before[a - 1].end <= before[b - 1].start);
                } else if a == n {
                    assert(before[b - 1].start >= end);
                } else {
                    assert(before[a].end <= start);
                }
            }
            assert forall|a: int| 0 <= a < after.len() implies (#[trigger] after[a]).start
                < after[a].end by {
                if a < n {
                    assert(before[a].start < before[a].end);
                } else if a > n {
                    assert(before[a - 1].start < before[a - 1].end);
                }
            }
            assert forall|p: int| #[trigger] self.at(p) == if start <= p < end {
                Some(Entry { start, end, value })
            } else {
                trimmed(old(self).at(p), start, end, p)
            } by {
                assert(removed.at(p) == trimmed(old(self).at(p), start, end, p));
                if start <= p < end {
                    lemma_lookup(after, n, p);
                } else if exists|j: int| 0 <= j < before.len() && (#[trigger] before[j]).covers(p) {
                    let j = choose|j: int| 0 <= j < before.len() && (#[trigger] before[j]).covers(p);
                    lemma_lookup(before, j, p);
                    let k = if j < n {
                        j
                    } else {
                        j + 1
                    };
                    assert(after[k] == before[j]);
                    lemma_lookup(after, k, p);
                } else {
                    assert forall|k: int| 0 <= k < after.len() implies !(#[trigger] after[k]).covers(
                        p,
                    ) by {
                        if k < n {
                            assert(!before[k].covers(p));
                        } else if k > n {
                            assert(!before[k - 1].covers(p));
                        }
                    }
                }
            }
        }
    }
}

} // verus!
