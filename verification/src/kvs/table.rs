//! A table from byte-string keys to values, kept in the order of the keys.

use vstd::prelude::*;
use crate::order::bytes_equal;
use crate::order::bytes_less;
use crate::order::lemma_lex_irreflexive;
use crate::order::lemma_lex_total;
use crate::order::lemma_lex_transitive;
use crate::order::lex_lt;

verus! {

/// Each key comes strictly before the next, so no key occurs twice.
pub open spec fn ascending<T>(entries: Seq<(Seq<u8>, T)>) -> bool {
    forall|i: int, j: int| 0 <= i < j < entries.len() ==> lex_lt(entries[i].0, entries[j].0)
}

/// The number of entries at the front whose keys come before `key`: where `key` stands
/// in ascending entries, or would be put.
pub open spec fn lower_bound<T>(entries: Seq<(Seq<u8>, T)>, key: Seq<u8>) -> int
    decreases entries.len(),
{
    if entries.len() == 0 {
        0
    } else if lex_lt(entries[0].0, key) {
        1 + lower_bound(entries.skip(1), key)
    } else {
        0
    }
}

/// The value under `key`, if ascending entries hold one.
pub open spec fn value_of<T>(entries: Seq<(Seq<u8>, T)>, key: Seq<u8>) -> Option<T> {
    let i = lower_bound(entries, key);
    if i < entries.len() && entries[i].0 == key {
        Some(entries[i].1)
    } else {
        None
    }
}

/// Ascending entries with `value` under `key`: in place of the old value, if there was one.
pub open spec fn with<T>(entries: Seq<(Seq<u8>, T)>, key: Seq<u8>, value: T) -> Seq<
    (Seq<u8>, T),
> {
    let i = lower_bound(entries, key);
    if i < entries.len() && entries[i].0 == key {
        entries.update(i, (key, value))
    } else {
        entries.insert(i, (key, value))
    }
}

/// Ascending entries without the entry under `key`.
pub open spec fn without<T>(entries: Seq<(Seq<u8>, T)>, key: Seq<u8>) -> Seq<(Seq<u8>, T)> {
    let i = lower_bound(entries, key);
    if i < entries.len() && entries[i].0 == key {
        entries.remove(i)
    } else {
        entries
    }
}

/// The entries as a map from keys to values.
pub open spec fn as_map<T>(entries: Seq<(Seq<u8>, T)>) -> Map<Seq<u8>, T> {
    Map::new(|key: Seq<u8>| value_of(entries, key) is Some, |key: Seq<u8>| value_of(entries, key)->Some_0)
}

/// A prefix of entries whose keys all come before `key`, followed by one that does not,
/// is as long as the lower bound of `key`.
pub proof fn lemma_lower_bound_is<T>(entries: Seq<(Seq<u8>, T)>, key: Seq<u8>, n: int)
    requires
        0 <= n <= entries.len(),
        forall|j: int| 0 <= j < n ==> lex_lt(#[trigger] entries[j].0, key),
        n < entries.len() ==> !lex_lt(entries[n].0, key),
    ensures
        lower_bound(entries, key) == n,
    decreases entries.len(),
{
    if entries.len() > 0 && n > 0 {
        let tail = entries.skip(1);
        assert(lex_lt(entries[0].0, key));
        assert forall|j: int| 0 <= j < n - 1 implies lex_lt(#[trigger] tail[j].0, key) by {
            assert(tail[j] == entries[j + 1]);
        }
        lemma_lower_bound_is(tail, key, n - 1);
    }
}

/// The lower bound of `key` lies within the entries; before it the keys come before
/// `key`, and from it on, in ascending entries, none does.
pub proof fn lemma_lower_bound_splits<T>(entries: Seq<(Seq<u8>, T)>, key: Seq<u8>)
    requires
        ascending(entries),
    ensures
        0 <= lower_bound(entries, key) <= entries.len(),
        forall|j: int|
            0 <= j < lower_bound(entries, key) ==> lex_lt(#[trigger] entries[j].0, key),
        forall|j: int|
            lower_bound(entries, key) <= j < entries.len() ==> !lex_lt(
                #[trigger] entries[j].0,
                key,
            ),
        forall|j: int|
            lower_bound(entries, key) <= j < entries.len() && entries[j].0 != key ==> lex_lt(
                key,
                #[trigger] entries[j].0,
            ),
        forall|j: int|
            lower_bound(entries, key) < j < entries.len() ==> lex_lt(
                key,
                #[trigger] entries[j].0,
            ),
    decreases entries.len(),
{
    if entries.len() > 0 {
        let tail = entries.skip(1);
        assert forall|i: int, j: int| 0 <= i < j < tail.len() implies lex_lt(
            tail[i].0,
            tail[j].0,
        ) by {
            assert(tail[i] == entries[i + 1]);
            assert(tail[j] == entries[j + 1]);
        }
        lemma_lower_bound_splits(tail, key);
        let r = lower_bound(entries, key);
        if lex_lt(entries[0].0, key) {
            assert forall|j: int| 0 <= j < r implies lex_lt(#[trigger] entries[j].0, key) by {
                if j > 0 {
                    assert(tail[j - 1] == entries[j]);
                }
            }
            assert forall|j: int| r <= j < entries.len() implies !lex_lt(
                #[trigger] entries[j].0,
                key,
            ) by {
                assert(tail[j - 1] == entries[j]);
            }
        } else {
            assert forall|j: int| r <= j < entries.len() implies !lex_lt(
                #[trigger] entries[j].0,
                key,
            ) by {
                if j > 0 && lex_lt(entries[j].0, key) {
                    assert(lex_lt(entries[0].0, entries[j].0));
                    lemma_lex_transitive(entries[0].0, entries[j].0, key);
                }
            }
        }
        assert forall|j: int| r <= j < entries.len() && entries[j].0 != key implies lex_lt(
            key,
            #[trigger] entries[j].0,
        ) by {
            lemma_lex_total(key, entries[j].0);
        }
        assert forall|j: int| r < j < entries.len() implies lex_lt(
            key,
            #[trigger] entries[j].0,
        ) by {
            lemma_lex_total(key, entries[j].0);
            if entries[j].0 == key {
                assert(lex_lt(entries[r].0, entries[j].0));
            }
        }
    }
}

/// The value under a key is the value of the one entry with that key.
pub proof fn lemma_value_of_entry<T>(entries: Seq<(Seq<u8>, T)>, i: int)
    requires
        ascending(entries),
        0 <= i < entries.len(),
    ensures
        lower_bound(entries, entries[i].0) == i,
        value_of(entries, entries[i].0) == Some(entries[i].1),
{
    let key = entries[i].0;
    assert forall|j: int| 0 <= j < i implies lex_lt(#[trigger] entries[j].0, key) by {}
    lemma_lex_irreflexive(key);
    lemma_lower_bound_is(entries, key, i);
}

/// Putting an entry into ascending entries leaves them ascending.
pub proof fn lemma_with_ascends<T>(entries: Seq<(Seq<u8>, T)>, key: Seq<u8>, value: T)
    requires
        ascending(entries),
    ensures
        ascending(with(entries, key, value)),
{
    lemma_lower_bound_splits(entries, key);
    let r = lower_bound(entries, key);
    let after = with(entries, key, value);
    assert forall|i: int, j: int| 0 <= i < j < after.len() implies lex_lt(
        after[i].0,
        after[j].0,
    ) by {
        if r < entries.len() && entries[r].0 == key {
            assert(after[i].0 == entries[i].0);
            assert(after[j].0 == entries[j].0);
        } else {
            if j < r {
                assert(after[i] == entries[i] && after[j] == entries[j]);
            } else if j == r {
                assert(after[i] == entries[i]);
            } else if i < r {
                assert(after[i] == entries[i] && after[j] == entries[j - 1]);
            } else if i == r {
                assert(after[j] == entries[j - 1]);
            } else {
                assert(after[i] == entries[i - 1] && after[j] == entries[j - 1]);
            }
        }
    }
}

/// Taking an entry out of ascending entries leaves them ascending.
pub proof fn lemma_without_ascends<T>(entries: Seq<(Seq<u8>, T)>, key: Seq<u8>)
    requires
        ascending(entries),
    ensures
        ascending(without(entries, key)),
{
    lemma_lower_bound_splits(entries, key);
    let r = lower_bound(entries, key);
    let after = without(entries, key);
    assert forall|i: int, j: int| 0 <= i < j < after.len() implies lex_lt(
        after[i].0,
        after[j].0,
    ) by {
        if r < entries.len() && entries[r].0 == key {
            if j < r {
                assert(after[i] == entries[i] && after[j] == entries[j]);
            } else if i < r {
                assert(after[i] == entries[i] && after[j] == entries[j + 1]);
            } else {
                assert(after[i] == entries[i + 1] && after[j] == entries[j + 1]);
            }
        }
    }
}

/// After a value was put under a key, that key holds the value and each other key holds
/// what it held.
pub proof fn lemma_value_of_with<T>(
    entries: Seq<(Seq<u8>, T)>,
    key: Seq<u8>,
    value: T,
    other: Seq<u8>,
)
    requires
        ascending(entries),
    ensures
        value_of(with(entries, key, value), other) == if other == key {
            Some(value)
        } else {
            value_of(entries, other)
        },
{
    lemma_lower_bound_splits(entries, key);
    lemma_lower_bound_splits(entries, other);
    lemma_with_ascends(entries, key, value);
    let r = lower_bound(entries, key);
    let after = with(entries, key, value);
    assert(after[r] == (key, value));
    lemma_value_of_entry(after, r);
    if other != key {
        lemma_lower_bound_splits(after, other);
        let q = lower_bound(entries, other);
        let q2 = lower_bound(after, other);
        match value_of(entries, other) {
            Some(held) => {
                let at = if r < entries.len() && entries[r].0 == key || q < r {
                    q
                } else {
                    q + 1
                };
                assert(after[at] == entries[q]);
                lemma_value_of_entry(after, at);
            },
            None => {
                if q2 < after.len() && after[q2].0 == other {
                    if r < entries.len() && entries[r].0 == key {
                        assert(after[q2].0 == entries[q2].0);
                        lemma_value_of_entry(entries, q2);
                    } else if q2 < r {
                        assert(after[q2] == entries[q2]);
                        lemma_value_of_entry(entries, q2);
                    } else {
                        assert(after[q2] == entries[q2 - 1]);
                        lemma_value_of_entry(entries, q2 - 1);
                    }
                }
            },
        }
    }
}

/// After the entry under a key was taken out, that key holds nothing and each other key
/// holds what it held.
pub proof fn lemma_value_of_without<T>(entries: Seq<(Seq<u8>, T)>, key: Seq<u8>, other: Seq<u8>)
    requires
        ascending(entries),
    ensures
        value_of(without(entries, key), other) == if other == key {
            None
        } else {
            value_of(entries, other)
        },
{
    lemma_lower_bound_splits(entries, key);
    lemma_lower_bound_splits(entries, other);
    lemma_without_ascends(entries, key);
    let r = lower_bound(entries, key);
    let after = without(entries, key);
    lemma_lower_bound_splits(after, other);
    let q = lower_bound(entries, other);
    let q2 = lower_bound(after, other);
    let removed = r < entries.len() && entries[r].0 == key;
    if q2 < after.len() && after[q2].0 == other {
        let from = if removed && q2 >= r {
            q2 + 1
        } else {
            q2
        };
        assert(after[q2] == entries[from]);
        lemma_value_of_entry(entries, from);
    }
    if other != key {
        if let Some(held) = value_of(entries, other) {
            let at = if removed && q > r {
                q - 1
            } else {
                q
            };
            assert(after[at] == entries[q]);
            lemma_value_of_entry(after, at);
        }
    }
}

/// A table from byte-string keys to values, in the order of the keys.
pub struct Table<V> {
    entries: Vec<(Vec<u8>, V)>,
}

impl<V: DeepView> Table<V> {
    /// The entries of the table in the order of the keys.
    pub closed spec fn entries(&self) -> Seq<(Seq<u8>, V::V)> {
        Seq::new(
            self.entries@.len(),
            |i: int| (self.entries@[i].0@, self.entries@[i].1.deep_view()),
        )
    }

    /// The keys ascend.
    pub open spec fn wf(&self) -> bool {
        ascending(self.entries())
    }

    /// The table as a map.
    pub open spec fn map(&self) -> Map<Seq<u8>, V::V> {
        as_map(self.entries())
    }

    pub fn new() -> (table: Self)
        ensures
            table.wf(),
            table.entries() == Seq::<(Seq<u8>, V::V)>::empty(),
    {
        let table = Table { entries: Vec::new() };
        assert(table.entries() =~= Seq::empty());
        table
    }

    pub fn len(&self) -> (len: usize)
        ensures
            len == self.entries().len(),
    {
        self.entries.len()
    }

    /// The key of the entry at `index`, counted in the order of the keys.
    pub fn key_at(&self, index: usize) -> (key: &Vec<u8>)
        requires
            index < self.entries().len(),
        ensures
            key@ == self.entries()[index as int].0,
    {
        &self.entries[index].0
    }

    /// The value of the entry at `index`, counted in the order of the keys.
    pub fn value_at(&self, index: usize) -> (value: &V)
        requires
            index < self.entries().len(),
        ensures
            value.deep_view() == self.entries()[index as int].1,
    {
        &self.entries[index].1
    }

    /// Where `key` stands in the table, or would be put.
    pub fn lower_bound(&self, key: &[u8]) -> (at: usize)
        requires
            self.wf(),
        ensures
            at == lower_bound(self.entries(), key@),
            at <= self.entries().len(),
    {
        let mut low: usize = 0;
        let mut high: usize = self.entries.len();
        while low < high
            invariant
                low <= high <= self.entries@.len(),
                self.wf(),
                forall|j: int| 0 <= j < low ==> lex_lt(#[trigger] self.entries()[j].0, key@),
                forall|j: int|
                    high <= j < self.entries@.len() ==> !lex_lt(
                        #[trigger] self.entries()[j].0,
                        key@,
                    ),
            decreases high - low,
        {
            let mid = low + (high - low) / 2;
            if bytes_less(self.entries[mid].0.as_slice(), key) {
                proof {
                    let here = self.entries()[mid as int].0;
                    assert forall|j: int| 0 <= j < mid + 1 implies lex_lt(
                        #[trigger] self.entries()[j].0,
                        key@,
                    ) by {
                        if j < mid {
                            assert(lex_lt(self.entries()[j].0, here));
                            lemma_lex_transitive(self.entries()[j].0, here, key@);
                        }
                    }
                }
                low = mid + 1;
            } else {
                proof {
                    let here = self.entries()[mid as int].0;
                    assert forall|j: int| mid <= j < self.entries@.len() implies !lex_lt(
                        #[trigger] self.entries()[j].0,
                        key@,
                    ) by {
                        if j > mid && lex_lt(self.entries()[j].0, key@) {
                            assert(lex_lt(here, self.entries()[j].0));
                            lemma_lex_transitive(here, self.entries()[j].0, key@);
                        }
                    }
                }
                high = mid;
            }
        }
        proof {
            lemma_lower_bound_is(self.entries(), key@, low as int);
        }
        low
    }

    /// Where `key` stands or would be put, and whether it stands there.
    fn find(&self, key: &[u8]) -> (at: (usize, bool))
        requires
            self.wf(),
        ensures
            at.0 == lower_bound(self.entries(), key@),
            at.0 <= self.entries().len(),
            at.1 == (at.0 < self.entries().len() && self.entries()[at.0 as int].0 == key@),
            at.1 == value_of(self.entries(), key@) is Some,
    {
        let at = self.lower_bound(key);
        let found = at < self.entries.len() && bytes_equal(self.entries[at].0.as_slice(), key);
        (at, found)
    }

    /// The value under `key`.
    pub fn get(&self, key: &[u8]) -> (value: Option<&V>)
        requires
            self.wf(),
        ensures
            match value {
                Some(v) => value_of(self.entries(), key@) == Some(v.deep_view()),
                None => value_of(self.entries(), key@) is None,
            },
    {
        let (at, found) = self.find(key);
        if found {
            Some(&self.entries[at].1)
        } else {
            None
        }
    }

    /// Whether the table holds a value under `key`.
    pub fn contains_key(&self, key: &[u8]) -> (contains: bool)
        requires
            self.wf(),
        ensures
            contains == value_of(self.entries(), key@) is Some,
    {
        let (_, found) = self.find(key);
        found
    }

    /// Puts `value` under `key`.
    pub fn set(&mut self, key: Vec<u8>, value: V)
        requires
            old(self).wf(),
        ensures
            final(self).wf(),
            final(self).entries() == with(old(self).entries(), key@, value.deep_view()),
    {
        let (at, found) = self.find(key.as_slice());
        proof {
            lemma_with_ascends(self.entries(), key@, value.deep_view());
        }
        let ghost before = self.entries();
        let ghost key_view = key@;
        let ghost value_view = value.deep_view();
        if found {
            let mut entry = (key, value);
            std::mem::swap(&mut self.entries[at], &mut entry);
        } else {
            self.entries.insert(at, (key, value));
        }
        assert(self.entries() =~= with(before, key_view, value_view));
    }

    /// Takes the entry under `key` out of the table.
    pub fn remove(&mut self, key: &[u8])
        requires
            old(self).wf(),
        ensures
            final(self).wf(),
            final(self).entries() == without(old(self).entries(), key@),
    {
        let (at, found) = self.find(key);
        proof {
            lemma_without_ascends(self.entries(), key@);
        }
        let ghost before = self.entries();
        if found {
            self.entries.remove(at);
        }
        assert(self.entries() =~= without(before, key@));
    }

    /// Takes the entry at `index` out of the table.
    pub fn remove_at(&mut self, index: usize)
        requires
            old(self).wf(),
            index < old(self).entries().len(),
        ensures
            final(self).wf(),
            final(self).entries() == old(self).entries().remove(index as int),
            final(self).entries() == without(
                old(self).entries(),
                old(self).entries()[index as int].0,
            ),
    {
        let ghost before = self.entries();
        proof {
            lemma_value_of_entry(before, index as int);
            lemma_without_ascends(before, before[index as int].0);
        }
        self.entries.remove(index);
        assert(self.entries() =~= before.remove(index as int));
    }
}

} // verus!
