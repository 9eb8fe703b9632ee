//! Auxiliary information returned with observations: an insertion-ordered
//! map from string keys to values, where a later insert under a key
//! replaces the earlier value in place.

use vstd::prelude::*;

verus! {

/// Whether no key occurs twice in `entries`.
pub open spec fn keys_unique<V>(entries: Seq<(Seq<char>, V)>) -> bool {
    forall|i: int, j: int| 0 <= i < j < entries.len() ==> (#[trigger] entries[i]).0 != (#[trigger] entries[j]).0
}

/// The position of `key` in `entries`, if it occurs.
pub open spec fn position_of<V>(entries: Seq<(Seq<char>, V)>, key: Seq<char>) -> Option<int> {
    if exists|i: int| 0 <= i < entries.len() && (#[trigger] entries[i]).0 == key {
        Some(choose|i: int| 0 <= i < entries.len() && (#[trigger] entries[i]).0 == key)
    } else {
        None
    }
}

/// `entries` after inserting `value` under `key`: the entry with that key
/// takes the new value in place, or a new entry is appended.
pub open spec fn inserted<V>(entries: Seq<(Seq<char>, V)>, key: Seq<char>, value: V) -> Seq<(Seq<char>, V)> {
    match position_of(entries, key) {
        Some(i) => entries.update(i, (key, value)),
        None => entries.push((key, value)),
    }
}

/// The abstract form of stored entries: each key as its characters.
pub open spec fn entries_view<V>(entries: Seq<(String, V)>) -> Seq<(Seq<char>, V)> {
    entries.map_values(|e: (String, V)| (e.0@, e.1))
}

/// An insertion-ordered map from string keys to values of type `V`.
#[derive(Clone, Debug, PartialEq)]
pub struct Info<V> {
    entries: Vec<(String, V)>,
}

impl<V> View for Info<V> {
    type V = Seq<(Seq<char>, V)>;

    /// The entries in insertion order.
    closed spec fn view(&self) -> Seq<(Seq<char>, V)> {
        entries_view(self.entries@)
    }
}

impl<V> Info<V> {
    /// No key occurs twice.
    pub open spec fn wf(&self) -> bool {
        keys_unique(self@)
    }

    /// An empty map.
    pub fn new() -> (r: Info<V>)
        ensures
            r@ == Seq::<(Seq<char>, V)>::empty(),
            r.wf(),
    {
        let r = Info { entries: Vec::new() };
        assert(entries_view(r.entries@) =~= Seq::<(Seq<char>, V)>::empty());
        r
    }

    /// Sets the value under `key`: an existing entry keeps its position and
    /// takes the new value; otherwise the entry is appended.
    pub fn insert(&mut self, key: &str, value: V)
        requires
            old(self).wf(),
        ensures
            final(self)@ == inserted(old(self)@, key@, value),
            final(self).wf(),
    {
        let k = key.to_owned();
        let ghost start = entries_view(self.entries@);
        let mut i: usize = 0;
        while i < self.entries.len()
            invariant
                i <= self.entries@.len(),
                start == entries_view(self.entries@),
                start == old(self)@,
                keys_unique(start),
                k@ == key@,
                forall|j: int| 0 <= j < i ==> (#[trigger] start[j]).0 != k@,
            decreases self.entries@.len() - i,
        {
            assert(start[i as int] == (self.entries@[i as int].0@, self.entries@[i as int].1));
            if self.entries[i].0 == k {
                assert(position_of(start, k@) == Some(i as int));
                let ghost before = self.entries@;
                self.entries.set(i, (k, value));
                assert(entries_view(self.entries@) =~= start.update(i as int, (key@, value)));
                assert forall|a: int, b: int|
                    0 <= a < b < start.len() implies (#[trigger] start.update(i as int, (key@, value))[a]).0
                    != (#[trigger] start.update(i as int, (key@, value))[b]).0 by {
                    assert(start[a].0 != start[b].0);
                }
                return;
            }
            i = i + 1;
        }
        assert(position_of(start, k@) is None);
        self.entries.push((k, value));
        assert(entries_view(self.entries@) =~= start.push((key@, value)));
    }

    /// The value stored under `key`, if any.
    pub fn get(&self, key: &str) -> (r: Option<&V>)
        requires
            self.wf(),
        ensures
            match position_of(self@, key@) {
                Some(i) => r == Some(&self@[i].1),
                None => r is None,
            },
    {
        let k = key.to_owned();
        let ghost start = entries_view(self.entries@);
        let mut i: usize = 0;
        while i < self.entries.len()
            invariant
                i <= self.entries@.len(),
                start == entries_view(self.entries@),
                keys_unique(start),
                k@ == key@,
                forall|j: int| 0 <= j < i ==> (#[trigger] start[j]).0 != k@,
            decreases self.entries@.len() - i,
        {
            assert(start[i as int] == (self.entries@[i as int].0@, self.entries@[i as int].1));
            if self.entries[i].0 == k {
                assert(position_of(start, k@) == Some(i as int));
                return Some(&self.entries[i].1);
            }
            i = i + 1;
        }
        None
    }

    /// The entries in insertion order.
    pub fn iter(&self) -> (r: &[(String, V)])
        ensures
            entries_view(r@) == self@,
    {
        self.entries.as_slice()
    }

    /// Whether the map has no entry.
    pub fn is_empty(&self) -> (r: bool)
        ensures
            r == (self@.len() == 0),
    {
        self.entries.len() == 0
    }

    /// The number of entries.
    pub fn len(&self) -> (r: usize)
        ensures
            r == self@.len(),
    {
        self.entries.len()
    }
}

} // verus!
