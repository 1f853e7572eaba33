//! A map from text to values that is walked in the order of its keys.

use vstd::prelude::*;

use crate::text::{less, same_text};

verus! {

use crate::text::{text_less, text_less_irreflexive, text_less_total, text_less_transitive};

/// The keys of `entries` stand in strictly ascending order, so that none occurs twice.
pub open spec fn ascending<V>(entries: Seq<(Seq<char>, V)>) -> bool {
    forall|i: int, j: int|
        0 <= i < j < entries.len() ==> text_less(
            #[trigger] entries[i].0,
            #[trigger] entries[j].0,
        )
}

/// The position of the first entry from `from` on whose key is `key`; the length where there
/// is none.
pub open spec fn position_of<V>(entries: Seq<(Seq<char>, V)>, key: Seq<char>, from: int) -> int
    decreases entries.len() - from,
{
    if from >= entries.len() {
        entries.len() as int
    } else if entries[from].0 == key {
        from
    } else {
        position_of(entries, key, from + 1)
    }
}

/// What `entries` holds under `key`.
pub open spec fn lookup<V>(entries: Seq<(Seq<char>, V)>, key: Seq<char>) -> Option<V> {
    let i = position_of(entries, key, 0);
    if i < entries.len() {
        Some(entries[i].1)
    } else {
        None
    }
}

/// What the search for a key finds.
pub proof fn lemma_position_of<V>(entries: Seq<(Seq<char>, V)>, key: Seq<char>, from: int)
    requires
        0 <= from <= entries.len(),
    ensures
        from <= position_of(entries, key, from) <= entries.len(),
        position_of(entries, key, from) < entries.len() ==> entries[position_of(
            entries,
            key,
            from,
        )].0 == key,
        forall|i: int|
            from <= i < position_of(entries, key, from) ==> #[trigger] entries[i].0 != key,
    decreases entries.len() - from,
{
    if from < entries.len() && entries[from].0 != key {
        lemma_position_of(entries, key, from + 1);
    }
}

/// The first position from `from` on whose key does not stand before `key`.
pub open spec fn rank_of<V>(entries: Seq<(Seq<char>, V)>, key: Seq<char>, from: int) -> int
    decreases entries.len() - from,
{
    if from < entries.len() && text_less(entries[from].0, key) {
        rank_of(entries, key, from + 1)
    } else {
        from
    }
}

/// `entries` with `value` stored under `key`.
pub open spec fn inserted<V>(entries: Seq<(Seq<char>, V)>, key: Seq<char>, value: V) -> Seq<
    (Seq<char>, V),
> {
    let i = rank_of(entries, key, 0);
    if i < entries.len() && entries[i].0 == key {
        entries.update(i, (key, value))
    } else {
        entries.insert(i, (key, value))
    }
}

/// What the search for the place of a key finds.
pub proof fn lemma_rank_of<V>(entries: Seq<(Seq<char>, V)>, key: Seq<char>, from: int)
    requires
        0 <= from <= entries.len(),
    ensures
        from <= rank_of(entries, key, from) <= entries.len(),
        forall|i: int|
            from <= i < rank_of(entries, key, from) ==> text_less(#[trigger] entries[i].0, key),
        rank_of(entries, key, from) < entries.len() ==> !text_less(
            entries[rank_of(entries, key, from)].0,
            key,
        ),
    decreases entries.len() - from,
{
    if from < entries.len() && text_less(entries[from].0, key) {
        lemma_rank_of(entries, key, from + 1);
    }
}

/// Storing a value keeps the keys in ascending order.
proof fn lemma_inserted_ascending<V>(entries: Seq<(Seq<char>, V)>, key: Seq<char>, value: V)
    requires
        ascending(entries),
    ensures
        ascending(inserted(entries, key, value)),
{
    let r = rank_of(entries, key, 0);
    lemma_rank_of(entries, key, 0);
    let after = inserted(entries, key, value);
    assert forall|i: int, j: int| 0 <= i < j < after.len() implies text_less(
        #[trigger] after[i].0,
        #[trigger] after[j].0,
    ) by {
        if r < entries.len() && entries[r].0 == key {
            assert(after[i].0 == entries[i].0 && after[j].0 == entries[j].0);
        } else {
            let old_i = if i < r { i } else { i - 1 };
            let old_j = if j < r { j } else { j - 1 };
            if i == r {
                text_less_total(key, entries[r].0);
                if old_j > r {
                    text_less_transitive(key, entries[r].0, entries[old_j].0);
                }
            } else if j != r {
                assert(text_less(entries[old_i].0, entries[old_j].0));
            }
        }
    }
}

/// What was stored under a key is what a lookup of that key finds, and no other key is
/// affected. The keys stay in ascending order.
pub proof fn law_lookup_after_insert<V>(
    entries: Seq<(Seq<char>, V)>,
    key: Seq<char>,
    value: V,
    other: Seq<char>,
)
    requires
        ascending(entries),
    ensures
        ascending(inserted(entries, key, value)),
        lookup(inserted(entries, key, value), key) == Some(value),
        other != key ==> lookup(inserted(entries, key, value), other) == lookup(entries, other),
{
    let r = rank_of(entries, key, 0);
    let after = inserted(entries, key, value);
    lemma_rank_of(entries, key, 0);
    lemma_inserted_ascending(entries, key, value);
    lemma_position_of(after, key, 0);
    lemma_position_of(after, other, 0);
    lemma_position_of(entries, other, 0);
    assert(after[r] == (key, value));
    let p = position_of(after, key, 0);
    assert(after[r].0 == key);
    assert(p <= r);
    if p < r {
        text_less_irreflexive(key);
        assert(text_less(after[p].0, after[r].0));
    }
    if other != key {
        let q = position_of(entries, other, 0);
        let present = r < entries.len() && entries[r].0 == key;
        let moved = if present || q < r { q } else { q + 1 };
        if q < entries.len() {
            assert(after[moved] == entries[q]);
            let s = position_of(after, other, 0);
            if s < moved {
                text_less_irreflexive(other);
                assert(text_less(after[s].0, after[moved].0));
            }
        } else {
            let s = position_of(after, other, 0);
            if s < after.len() {
                let back = if present || s < r { s } else { s - 1 };
                assert(after[s] == entries[back]);
            }
        }
    }
}

/// A key that all keys stand before goes to the end.
pub proof fn lemma_inserted_last<V>(entries: Seq<(Seq<char>, V)>, key: Seq<char>, value: V)
    requires
        forall|i: int| 0 <= i < entries.len() ==> text_less(#[trigger] entries[i].0, key),
    ensures
        inserted(entries, key, value) == entries.push((key, value)),
{
    lemma_rank_of(entries, key, 0);
    let r = rank_of(entries, key, 0);
    if r < entries.len() {
        assert(text_less(entries[r].0, key));
    }
    assert(entries.insert(r, (key, value)) =~= entries.push((key, value)));
}

/// A map from text to values, walked in the order of its keys.
#[derive(Debug)]
pub struct TextMap<V> {
    entries: Vec<(String, V)>,
}

impl<V> View for TextMap<V> {
    type V = Seq<(Seq<char>, V)>;

    closed spec fn view(&self) -> Seq<(Seq<char>, V)> {
        self.entries@.map_values(|e: (String, V)| (e.0@, e.1))
    }
}

impl<V> TextMap<V> {
    #[verifier::type_invariant]
    spec fn sorted(&self) -> bool {
        ascending(self@)
    }

    /// The empty map.
    pub fn new() -> (map: Self)
        ensures
            map@ == Seq::<(Seq<char>, V)>::empty(),
    {
        let entries: Vec<(String, V)> = Vec::new();
        let map = TextMap { entries };
        assert(map@ == Seq::<(Seq<char>, V)>::empty());
        map
    }

    /// The number of entries.
    pub fn len(&self) -> (n: usize)
        ensures
            n == self@.len(),
            ascending(self@),
    {
        proof {
            use_type_invariant(self);
        }
        self.entries.len()
    }

    /// The key at position `i`.
    pub fn key_at(&self, i: usize) -> (key: &String)
        requires
            i < self@.len(),
        ensures
            key@ == self@[i as int].0,
    {
        &self.entries[i].0
    }

    /// The value at position `i`.
    pub fn value_at(&self, i: usize) -> (value: &V)
        requires
            i < self@.len(),
        ensures
            *value == self@[i as int].1,
    {
        &self.entries[i].1
    }

    /// The value stored under `key`.
    pub fn get(&self, key: &str) -> (value: Option<&V>)
        ensures
            value == (match lookup(self@, key@) {
                Some(v) => Some(&v),
                None => None,
            }),
    {
        let n: usize = self.entries.len();
        let mut i: usize = 0;
        while i < n
            invariant
                i <= n == self@.len(),
                n == self.entries@.len(),
                position_of(self@, key@, 0) == position_of(self@, key@, i as int),
            decreases n - i,
        {
            if same_text(self.entries[i].0.as_str(), key) {
                return Some(&self.entries[i].1);
            }
            i += 1;
        }
        None
    }

    /// Whether there is a value under `key`.
    pub fn contains_key(&self, key: &str) -> (yes: bool)
        ensures
            yes == lookup(self@, key@) is Some,
    {
        self.get(key).is_some()
    }

    /// Stores `value` under `key`, in place of what stood there.
    pub fn insert(&mut self, key: String, value: V)
        ensures
            final(self)@ == inserted(old(self)@, key@, value),
            ascending(final(self)@),
    {
        proof {
            use_type_invariant(&*self);
        }
        let ghost before = self@;
        let mut entries: Vec<(String, V)> = Vec::new();
        core::mem::swap(&mut entries, &mut self.entries);
        let n: usize = entries.len();
        let mut i: usize = 0;
        while i < n && less(entries[i].0.as_str(), key.as_str())
            invariant
                i <= n == before.len(),
                n == entries@.len(),
                before == entries@.map_values(|e: (String, V)| (e.0@, e.1)),
                rank_of(before, key@, 0) == rank_of(before, key@, i as int),
            decreases n - i,
        {
            i += 1;
        }
        if i < n && same_text(entries[i].0.as_str(), key.as_str()) {
            entries.set(i, (key, value));
        } else {
            entries.insert(i, (key, value));
        }
        proof {
            lemma_inserted_ascending(before, key@, value);
            assert(entries@.map_values(|e: (String, V)| (e.0@, e.1)) == inserted(
                before,
                key@,
                value,
            ));
        }
        self.entries = entries;
    }
}

/// `copy` has the key of `entry` and a clone of its value.
spec fn same_entry<V: Clone>(entry: (String, V), copy: (String, V)) -> bool {
    copy.0@ == entry.0@ && cloned(entry.1, copy.1)
}

impl<V: Clone> Clone for TextMap<V> {
    fn clone(&self) -> (copy: Self)
        ensures
            copy@.len() == self@.len(),
            forall|i: int|
                0 <= i < self@.len() ==> #[trigger] copy@[i].0 == self@[i].0 && cloned(
                    self@[i].1,
                    copy@[i].1,
                ),
    {
        proof {
            use_type_invariant(self);
        }
        let n: usize = self.entries.len();
        let mut entries: Vec<(String, V)> = Vec::new();
        let mut i: usize = 0;
        while i < n
            invariant
                i <= n == self.entries@.len(),
                entries@.len() == i,
                forall|j: int| 0 <= j < i ==> #[trigger] same_entry(self.entries@[j], entries@[j]),
            decreases n - i,
        {
            let ghost before = entries@;
            let key = self.entries[i].0.clone();
            let value = self.entries[i].1.clone();
            assert(same_entry(self.entries@[i as int], (key, value)));
            entries.push((key, value));
            assert forall|j: int| 0 <= j < i + 1 implies #[trigger] same_entry(
                self.entries@[j],
                entries@[j],
            ) by {
                if j < i {
                    assert(same_entry(self.entries@[j], before[j]));
                }
            }
            i += 1;
        }
        proof {
            assert forall|j: int| 0 <= j < n implies entries@[j].0@ == #[trigger] self@[j].0 && cloned(
                self@[j].1,
                entries@[j].1,
            ) by {
                assert(same_entry(self.entries@[j], entries@[j]));
            }
            let keys = entries@.map_values(|e: (String, V)| (e.0@, e.1));
            assert(ascending(keys)) by {
                assert forall|a: int, b: int| 0 <= a < b < keys.len() implies text_less(
                    #[trigger] keys[a].0,
                    #[trigger] keys[b].0,
                ) by {
                    assert(keys[a].0 == self@[a].0);
                    assert(keys[b].0 == self@[b].0);
                }
            }
        }
        TextMap { entries }
    }
}

/// What a lookup finds stands in the map under that key; it finds nothing only where no entry has
/// the key.
pub proof fn law_lookup_finds_the_entry<V>(entries: Seq<(Seq<char>, V)>, key: Seq<char>)
    ensures
        match lookup(entries, key) {
            Some(value) => exists|i: int|
                0 <= i < entries.len() && (#[trigger] entries[i]).0 == key && entries[i].1 == value,
            None => forall|i: int| 0 <= i < entries.len() ==> (#[trigger] entries[i]).0 != key,
        },
{
    lemma_position_of(entries, key, 0);
}

/// A lookup of the key of an entry finds its value where no earlier entry has that key.
pub proof fn lemma_lookup_at<V>(entries: Seq<(Seq<char>, V)>, i: int)
    requires
        0 <= i < entries.len(),
        forall|j: int| 0 <= j < i ==> (#[trigger] entries[j]).0 != entries[i].0,
    ensures
        lookup(entries, entries[i].0) == Some(entries[i].1),
{
    lemma_position_of(entries, entries[i].0, 0);
    let p = position_of(entries, entries[i].0, 0);
    if p < i {
        assert(entries[p].0 != entries[i].0);
    }
}

} // verus!
