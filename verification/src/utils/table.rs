//! Values filed under numbers, in the order in which the numbers first came.

use vstd::prelude::*;

use crate::utils::search;

verus! {

/// Whether the entry at a place is filed under the key.
pub open spec fn key_is<V>(entries: Seq<(u32, V)>, key: u32) -> spec_fn(int) -> bool {
    |i: int| entries[i].0 == key
}

/// Where the key's entry stands.
pub open spec fn place_of<V>(entries: Seq<(u32, V)>, key: u32) -> Option<int> {
    search::first_below(entries.len(), key_is(entries, key))
}

/// What is filed under the key.
pub open spec fn filed<V>(entries: Seq<(u32, V)>, key: u32) -> Option<V> {
    match place_of(entries, key) {
        Some(i) => Some(entries[i].1),
        None => None,
    }
}

/// The entries with a value filed under a key: in its place if it is there, else last.
pub open spec fn with_entry<V>(entries: Seq<(u32, V)>, key: u32, value: V) -> Seq<(u32, V)> {
    match place_of(entries, key) {
        Some(i) => entries.update(i, (key, value)),
        None => entries.push((key, value)),
    }
}

/// The entries without the key's.
pub open spec fn without_entry<V>(entries: Seq<(u32, V)>, key: u32) -> Seq<(u32, V)> {
    match place_of(entries, key) {
        Some(i) => entries.remove(i),
        None => entries,
    }
}

/// Whether no key has two entries.
pub open spec fn keys_distinct<V>(entries: Seq<(u32, V)>) -> bool {
    forall|i: int, j: int|
        0 <= i < j < entries.len() ==> (#[trigger] entries[i]).0 != (#[trigger] entries[j]).0
}

/// `place_of` is the first place of the key, or the key has no entry.
pub proof fn lemma_place_of<V>(entries: Seq<(u32, V)>, key: u32)
    ensures
        match place_of(entries, key) {
            Some(i) => 0 <= i < entries.len() && entries[i].0 == key,
            None => forall|j: int| 0 <= j < entries.len() ==> (#[trigger] entries[j]).0 != key,
        },
{
    let p = key_is(entries, key);
    search::lemma_first_below(entries.len(), p);
    if place_of(entries, key) is None {
        assert forall|j: int| 0 <= j < entries.len() implies (#[trigger] entries[j]).0 != key by {
            assert(!p(j));
        }
    }
}

/// Where no key has two entries, an entry's place is its key's.
pub proof fn lemma_only_place<V>(entries: Seq<(u32, V)>, i: int)
    requires
        keys_distinct(entries),
        0 <= i < entries.len(),
    ensures
        place_of(entries, entries[i].0) == Some(i),
{
    lemma_place_of(entries, entries[i].0);
    match place_of(entries, entries[i].0) {
        Some(k) => {
            if k != i {
                assert(entries[k].0 == entries[i].0);
            }
        },
        None => {
            assert(entries[i].0 != entries[i].0);
        },
    }
}

/// Values filed under numbers. No number has two entries.
pub struct Table<V> {
    entries: Vec<(u32, V)>,
}

impl<V> View for Table<V> {
    type V = Seq<(u32, V)>;

    closed spec fn view(&self) -> Seq<(u32, V)> {
        self.entries@
    }
}

impl<V: Copy> Table<V> {
    /// A table without entries.
    pub fn new() -> (r: Table<V>)
        ensures
            r@ == Seq::<(u32, V)>::empty(),
            keys_distinct(r@),
    {
        Table { entries: Vec::new() }
    }

    fn place(&self, key: u32) -> (r: Option<usize>)
        ensures
            match r {
                Some(i) => place_of(self@, key) == Some(i as int) && i < self@.len(),
                None => place_of(self@, key) is None,
            },
    {
        let ghost p = key_is(self@, key);
        let mut i: usize = 0;
        while i < self.entries.len()
            invariant
                i <= self@.len(),
                p == key_is(self@, key),
                forall|j: int| 0 <= j < i ==> !(#[trigger] p(j)),
            decreases self@.len() - i,
        {
            if self.entries[i].0 == key {
                proof {
                    search::lemma_is_first_below(self@.len(), p, i as int);
                }
                return Some(i);
            }
            i = i + 1;
        }
        proof {
            search::lemma_none_below(self@.len(), p);
        }
        None
    }

    /// What is filed under the key.
    pub fn get(&self, key: u32) -> (r: Option<V>)
        ensures
            r == filed(self@, key),
    {
        match self.place(key) {
            Some(i) => Some(self.entries[i].1),
            None => None,
        }
    }

    /// Files a value under a key, in place of what was filed there.
    pub fn insert(&mut self, key: u32, value: V)
        requires
            keys_distinct(old(self)@),
        ensures
            final(self)@ == with_entry(old(self)@, key, value),
            keys_distinct(final(self)@),
    {
        proof {
            lemma_place_of(self@, key);
        }
        match self.place(key) {
            Some(i) => {
                self.entries.set(i, (key, value));
            },
            None => {
                self.entries.push((key, value));
            },
        }
    }

    /// Takes out what is filed under the key.
    pub fn remove(&mut self, key: u32) -> (r: Option<V>)
        requires
            keys_distinct(old(self)@),
        ensures
            r == filed(old(self)@, key),
            final(self)@ == without_entry(old(self)@, key),
            keys_distinct(final(self)@),
    {
        match self.place(key) {
            Some(i) => {
                let entry = self.entries.remove(i);
                Some(entry.1)
            },
            None => None,
        }
    }

    /// How many entries there are.
    pub fn len(&self) -> (r: usize)
        ensures
            r == self@.len(),
    {
        self.entries.len()
    }

    /// The entry at a place.
    pub fn at(&self, i: usize) -> (r: (u32, V))
        requires
            i < self@.len(),
        ensures
            r == self@[i as int],
    {
        self.entries[i]
    }
}

/// What was filed under a key is found there, and what is filed under other keys stays.
pub proof fn law_insert_then_get<V>(entries: Seq<(u32, V)>, key: u32, value: V, other: u32)
    requires
        keys_distinct(entries),
    ensures
        filed(with_entry(entries, key, value), key) == Some(value),
        other != key ==> filed(with_entry(entries, key, value), other) == filed(entries, other),
{
    let next = with_entry(entries, key, value);
    lemma_place_of(entries, key);
    lemma_place_of(entries, other);
    let at = match place_of(entries, key) {
        Some(i) => i,
        None => entries.len() as int,
    };
    assert(keys_distinct(next));
    assert(next[at] == (key, value));
    lemma_only_place(next, at);
    if other != key {
        lemma_place_of(next, other);
        match place_of(entries, other) {
            Some(i) => {
                assert(next[i] == entries[i]);
                lemma_only_place(next, i);
            },
            None => {
                if place_of(next, other) is Some {
                    let k = place_of(next, other).unwrap();
                    assert(next[k].0 == other);
                    assert(entries[k].0 == other);
                }
            },
        }
    }
}

/// A key that was taken out is filed no more, and what is filed under other keys stays.
pub proof fn law_remove_then_get<V>(entries: Seq<(u32, V)>, key: u32, other: u32)
    requires
        keys_distinct(entries),
    ensures
        filed(without_entry(entries, key), key) is None,
        other != key ==> filed(without_entry(entries, key), other) == filed(entries, other),
{
    let next = without_entry(entries, key);
    lemma_place_of(entries, key);
    lemma_place_of(entries, other);
    lemma_place_of(next, key);
    lemma_place_of(next, other);
    match place_of(entries, key) {
        Some(at) => {
            if place_of(next, key) is Some {
                let k = place_of(next, key).unwrap();
                let source = if k < at {
                    k
                } else {
                    k + 1
                };
                assert(next[k] == entries[source]);
                assert(entries[source].0 == entries[at].0);
            }
            assert(keys_distinct(next)) by {
                assert forall|i: int, j: int| 0 <= i < j < next.len() implies (#[trigger] next[i]).0
                    != (#[trigger] next[j]).0 by {
                    let a = if i < at {
                        i
                    } else {
                        i + 1
                    };
                    let b = if j < at {
                        j
                    } else {
                        j + 1
                    };
                    assert(entries[a].0 != entries[b].0);
                }
            }
            if other != key {
                match place_of(entries, other) {
                    Some(i) => {
                        let to = if i < at {
                            i
                        } else {
                            i - 1
                        };
                        assert(next[to] == entries[i]);
                        lemma_only_place(next, to);
                    },
                    None => {
                        if place_of(next, other) is Some {
                            let k = place_of(next, other).unwrap();
                            let source = if k < at {
                                k
                            } else {
                                k + 1
                            };
                            assert(entries[source].0 == other);
                        }
                    },
                }
            }
        },
        None => {},
    }
}

} // verus!
