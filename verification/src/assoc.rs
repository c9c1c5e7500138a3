//! A small map kept as a list of entries, for keys that are found by
//! comparing their views.

use crate::identity::Identity;
use vstd::prelude::*;

verus! {

/// A key that can be told from another by its view.
pub trait LookupKey: View + Sized {
    /// Whether the two keys have the same view.
    fn same_key(&self, other: &Self) -> (same: bool)
        ensures
            same == (self@ == other@),
    ;
}

impl LookupKey for Identity {
    fn same_key(&self, other: &Self) -> (same: bool) {
        self.same_as(other)
    }
}

impl LookupKey for String {
    fn same_key(&self, other: &Self) -> (same: bool) {
        *self == *other
    }
}

/// A map from keys to values. Its view maps the keys' views to the values'
/// views.
pub struct AssocList<K: LookupKey, V: View> {
    /// One entry for each key. Should a key have several, the last one
    /// counts.
    entries: Vec<(K, V)>,
}

/// The map that a list of entries stands for.
pub closed spec fn entries_map<K: LookupKey, V: View>(entries: Seq<(K, V)>) -> Map<K::V, V::V>
    decreases entries.len(),
{
    if entries.len() == 0 {
        Map::empty()
    } else {
        entries_map(entries.drop_last()).insert(entries.last().0@, entries.last().1@)
    }
}

impl<K: LookupKey, V: View> View for AssocList<K, V> {
    type V = Map<K::V, V::V>;

    closed spec fn view(&self) -> Map<K::V, V::V> {
        entries_map(self.entries@)
    }
}

/// An entry of a key decides what the map holds for the key once no later
/// entry is of the same key.
proof fn lemma_last_entry_counts<K: LookupKey, V: View>(
    entries: Seq<(K, V)>,
    position: int,
    key: K::V,
)
    requires
        0 <= position < entries.len(),
        entries[position].0@ == key,
        forall|k: int| position < k < entries.len() ==> entries[k].0@ != key,
    ensures
        entries_map(entries).contains_key(key),
        entries_map(entries)[key] == entries[position].1@,
    decreases entries.len(),
{
    if position < entries.len() - 1 {
        lemma_last_entry_counts(entries.drop_last(), position, key);
    }
}

/// The map holds nothing for a key that has no entry.
proof fn lemma_no_entry<K: LookupKey, V: View>(entries: Seq<(K, V)>, key: K::V)
    requires
        forall|k: int| 0 <= k < entries.len() ==> entries[k].0@ != key,
    ensures
        !entries_map(entries).contains_key(key),
    decreases entries.len(),
{
    if entries.len() > 0 {
        lemma_no_entry(entries.drop_last(), key);
    }
}

/// Once something new is recorded for a key, it makes no difference whether
/// one of the key's earlier entries was taken out first.
proof fn lemma_entry_replaced<K: LookupKey, V: View>(
    entries: Seq<(K, V)>,
    position: int,
    key: K::V,
    value: V::V,
)
    requires
        0 <= position < entries.len(),
        entries[position].0@ == key,
    ensures
        entries_map(entries.remove(position)).insert(key, value) == entries_map(entries).insert(
            key,
            value,
        ),
    decreases entries.len(),
{
    let front = entries.drop_last();
    let last = entries.last();
    if position == entries.len() - 1 {
        assert(entries.remove(position) =~= front);
        assert(entries_map(front).insert(key, last.1@).insert(key, value) =~= entries_map(
            front,
        ).insert(key, value));
    } else {
        lemma_entry_replaced(front, position, key, value);
        assert(entries.remove(position).drop_last() =~= front.remove(position));
        assert(entries.remove(position).last() == last);
        let shorter = entries_map(front.remove(position));
        assert(shorter.insert(last.0@, last.1@).insert(key, value) =~= shorter.insert(
            key,
            value,
        ).insert(last.0@, last.1@).insert(key, value));
        assert(entries_map(front).insert(key, value).insert(last.0@, last.1@).insert(key, value)
            =~= entries_map(front).insert(last.0@, last.1@).insert(key, value));
    }
}

impl<K: LookupKey, V: View> AssocList<K, V> {
    /// A map without entries.
    pub fn new() -> (list: Self)
        ensures
            list@ == Map::<K::V, V::V>::empty(),
    {
        AssocList { entries: Vec::new() }
    }

    /// Where the entry that counts for `key` stands.
    fn position(&self, key: &K) -> (found: Option<usize>)
        ensures
            found is Some <==> self@.contains_key(key@),
            found matches Some(position) ==> position < self.entries@.len()
                && self.entries@[position as int].0@ == key@
                && self.entries@[position as int].1@ == self@[key@],
    {
        let mut i: usize = self.entries.len();
        while i > 0
            invariant
                i <= self.entries@.len(),
                forall|k: int| i <= k < self.entries@.len() ==> self.entries@[k].0@ != key@,
            decreases i,
        {
            i -= 1;
            if self.entries[i].0.same_key(key) {
                proof {
                    lemma_last_entry_counts(self.entries@, i as int, key@);
                }
                return Some(i);
            }
        }
        proof {
            lemma_no_entry(self.entries@, key@);
        }
        None
    }

    /// Whether the map holds something for `key`.
    pub fn contains_key(&self, key: &K) -> (present: bool)
        ensures
            present == self@.contains_key(key@),
    {
        self.position(key).is_some()
    }

    /// What the map holds for `key`.
    pub fn get(&self, key: &K) -> (found: Option<&V>)
        ensures
            found is Some <==> self@.contains_key(key@),
            found matches Some(value) ==> value@ == self@[key@],
    {
        match self.position(key) {
            Some(position) => Some(&self.entries[position].1),
            None => None,
        }
    }

    /// Makes the map hold `value` for `key`, and returns what it held for
    /// the key before.
    pub fn insert(&mut self, key: K, value: V) -> (previous: Option<V>)
        ensures
            final(self)@ == old(self)@.insert(key@, value@),
            previous is Some <==> old(self)@.contains_key(key@),
            previous matches Some(p) ==> p@ == old(self)@[key@],
    {
        let ghost before = self.entries@;
        let ghost recorded = value@;
        let ghost at = key@;
        match self.position(&key) {
            Some(position) => {
                let entry = self.entries.remove(position);
                self.entries.push((key, value));
                proof {
                    lemma_entry_replaced(before, position as int, at, recorded);
                    assert(self.entries@.drop_last() =~= before.remove(position as int));
                }
                Some(entry.1)
            },
            None => {
                self.entries.push((key, value));
                proof {
                    assert(self.entries@.drop_last() =~= before);
                }
                None
            },
        }
    }

    /// Makes the map hold nothing for `key`, and returns what it held for
    /// the key before.
    pub fn remove(&mut self, key: &K) -> (previous: Option<V>)
        ensures
            final(self)@ == old(self)@.remove(key@),
            previous is Some <==> old(self)@.contains_key(key@),
            previous matches Some(p) ==> p@ == old(self)@[key@],
    {
        let mut previous: Option<V> = None;
        let mut i: usize = self.entries.len();
        while i > 0
            invariant
                i <= self.entries@.len(),
                forall|k: int| i <= k < self.entries@.len() ==> self.entries@[k].0@ != key@,
                entries_map(self.entries@).remove(key@) == old(self)@.remove(key@),
                previous is Some ==> old(self)@.contains_key(key@),
                previous is None ==> entries_map(self.entries@) == old(self)@,
                previous matches Some(p) ==> p@ == old(self)@[key@],
            decreases i,
        {
            i -= 1;
            if self.entries[i].0.same_key(key) {
                let ghost before = self.entries@;
                proof {
                    lemma_last_entry_counts(before, i as int, key@);
                    lemma_entry_replaced(before, i as int, key@, before[i as int].1@);
                    assert(entries_map(before.remove(i as int)).remove(key@) =~= entries_map(
                        before.remove(i as int),
                    ).insert(key@, before[i as int].1@).remove(key@));
                    assert(entries_map(before).insert(key@, before[i as int].1@).remove(key@)
                        =~= entries_map(before).remove(key@));
                }
                let entry = self.entries.remove(i);
                if previous.is_none() {
                    previous = Some(entry.1);
                }
            }
        }
        proof {
            lemma_no_entry(self.entries@, key@);
            assert(entries_map(self.entries@).remove(key@) =~= entries_map(self.entries@));
            if previous is None {
                assert(!old(self)@.contains_key(key@));
            }
        }
        previous
    }
}

} // verus!
