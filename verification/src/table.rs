//! Lists of keys and values in which no key occurs twice.

use vstd::prelude::*;

use crate::path::{same_components, views, ComponentView, PathComponent};
use crate::text::same_text;

verus! {

/// A value that entries of a list are found by.
pub trait Key: Sized {
    /// What tells one key from another.
    type Id;

    spec fn id(&self) -> Self::Id;

    /// Whether the two keys are the same.
    fn same(&self, other: &Self) -> (r: bool)
        ensures
            r == (self.id() == other.id()),
    ;
}

/// Texts are told apart by their characters.
impl Key for String {
    type Id = Seq<char>;

    open spec fn id(&self) -> Seq<char> {
        self@
    }

    fn same(&self, other: &Self) -> (r: bool) {
        same_text(self.as_str(), other.as_str())
    }
}

/// Paths are told apart by their components.
impl Key for Vec<PathComponent> {
    type Id = Seq<ComponentView>;

    open spec fn id(&self) -> Seq<ComponentView> {
        views(self@)
    }

    fn same(&self, other: &Self) -> (r: bool) {
        same_components(self, other)
    }
}

/// The values of the keys in a list.
pub open spec fn entry_map<K: Key, E: View>(entries: Seq<(K, E)>) -> Map<K::Id, E::V>
    decreases entries.len(),
{
    if entries.len() == 0 {
        Map::empty()
    } else {
        entry_map(entries.drop_last()).insert(entries.last().0.id(), entries.last().1@)
    }
}

/// No two entries of the list have the same key.
pub open spec fn keys_differ<K: Key, E>(entries: Seq<(K, E)>) -> bool {
    forall|i: int, j: int|
        0 <= i < j < entries.len() ==> (#[trigger] entries[i]).0.id() != (
        #[trigger] entries[j]).0.id()
}

/// The list in which the key has the value, in place of the value that it had.
pub(crate) fn with_entry<K: Key, E: View>(entries: Vec<(K, E)>, key: K, value: E) -> (r: Vec<
    (K, E),
>)
    requires
        keys_differ(entries@),
    ensures
        keys_differ(r@),
        entry_map(r@) == entry_map(entries@).insert(key.id(), value@),
{
    let ghost before = entries@;
    let ghost entry = (key, value);
    let mut changed = entries;
    let mut i: usize = 0;
    while i < changed.len()
        invariant
            i <= changed@.len(),
            changed@ == before,
            before == entries@,
            keys_differ(before),
            entry == (key, value),
            forall|j: int| 0 <= j < i ==> (#[trigger] before[j]).0.id() != key.id(),
        decreases changed@.len() - i,
    {
        if changed[i].0.same(&key) {
            proof {
                lemma_replace(before, i as int, entry);
            }
            changed.set(i, (key, value));
            return changed;
        }
        i += 1;
    }
    changed.push((key, value));
    assert(changed@.drop_last() == before);
    changed
}

/// The position of the key, if it is in the list.
pub(crate) fn find<K: Key, E: View>(entries: &Vec<(K, E)>, key: &K) -> (r: Option<usize>)
    requires
        keys_differ(entries@),
    ensures
        match r {
            Some(at) => at < entries@.len() && entry_map(entries@).contains_pair(
                key.id(),
                entries@[at as int].1@,
            ),
            None => !entry_map(entries@).contains_key(key.id()),
        },
{
    let mut i: usize = 0;
    while i < entries.len()
        invariant
            i <= entries@.len(),
            keys_differ(entries@),
            forall|j: int| 0 <= j < i ==> (#[trigger] entries@[j]).0.id() != key.id(),
        decreases entries@.len() - i,
    {
        if entries[i].0.same(key) {
            proof {
                lemma_value(entries@, i as int);
            }
            return Some(i);
        }
        i += 1;
    }
    proof {
        lemma_keys(entries@, key.id());
    }
    None
}

/// A key has a value where an entry of the list has that key.
pub(crate) proof fn lemma_keys<K: Key, E: View>(entries: Seq<(K, E)>, id: K::Id)
    ensures
        entry_map(entries).contains_key(id) <==> exists|i: int|
            0 <= i < entries.len() && (#[trigger] entries[i]).0.id() == id,
    decreases entries.len(),
{
    if entries.len() > 0 {
        let front = entries.drop_last();
        lemma_keys(front, id);
        if entries.last().0.id() == id {
            assert(entries[entries.len() - 1].0.id() == id);
        }
        if exists|i: int| 0 <= i < front.len() && (#[trigger] front[i]).0.id() == id {
            let i = choose|i: int| 0 <= i < front.len() && (#[trigger] front[i]).0.id() == id;
            assert(entries[i].0.id() == id);
        }
        if exists|i: int| 0 <= i < entries.len() && (#[trigger] entries[i]).0.id() == id {
            let i = choose|i: int| 0 <= i < entries.len() && (#[trigger] entries[i]).0.id() == id;
            if i < front.len() {
                assert(front[i].0.id() == id);
            }
        }
    }
}

/// The value of a key is that of its entry.
proof fn lemma_value<K: Key, E: View>(entries: Seq<(K, E)>, at: int)
    requires
        keys_differ(entries),
        0 <= at < entries.len(),
    ensures
        entry_map(entries).contains_pair(entries[at].0.id(), entries[at].1@),
    decreases entries.len(),
{
    if at < entries.len() - 1 {
        let front = entries.drop_last();
        assert(front[at] == entries[at]);
        lemma_value(front, at);
        assert(entries.last().0.id() != entries[at].0.id());
    }
}

/// A new value at the place of an entry is the new value of its key.
proof fn lemma_replace<K: Key, E: View>(entries: Seq<(K, E)>, at: int, entry: (K, E))
    requires
        keys_differ(entries),
        0 <= at < entries.len(),
        entries[at].0.id() == entry.0.id(),
    ensures
        keys_differ(entries.update(at, entry)),
        entry_map(entries.update(at, entry)) == entry_map(entries).insert(entry.0.id(), entry.1@),
    decreases entries.len(),
{
    let updated = entries.update(at, entry);
    let front = entries.drop_last();
    if at == entries.len() - 1 {
        assert(updated.drop_last() == front);
    } else {
        assert(front[at] == entries[at]);
        lemma_replace(front, at, entry);
        assert(updated.drop_last() == front.update(at, entry));
        assert(entries.last().0.id() != entries[at].0.id());
    }
}

/// Where no key occurs twice, the value of a key is that of the entry with the key, and a
/// key without an entry has none.
pub proof fn entries_are_the_values_of_their_keys<K: Key, E: View>(entries: Seq<(K, E)>, id: K::Id)
    requires
        keys_differ(entries),
    ensures
        entry_map(entries).contains_key(id) <==> exists|i: int|
            0 <= i < entries.len() && (#[trigger] entries[i]).0.id() == id,
        forall|i: int|
            0 <= i < entries.len() ==> entry_map(entries).contains_pair(
                (#[trigger] entries[i]).0.id(),
                entries[i].1@,
            ),
{
    lemma_keys(entries, id);
    assert forall|i: int| 0 <= i < entries.len() implies entry_map(entries).contains_pair(
        (#[trigger] entries[i]).0.id(),
        entries[i].1@,
    ) by {
        lemma_value(entries, i);
    }
}

} // verus!
