//! A store held in memory.

use crate::error::Error;
use crate::store::{Contents, Read, Write};
use vstd::prelude::*;

verus! {

/// An in-memory store. It never fails.
#[derive(Debug)]
pub struct MapStore {
    entries: Vec<(Vec<u8>, Vec<u8>)>,
}

/// Whether some entry has the key `key`.
spec fn has_key(entries: Seq<(Vec<u8>, Vec<u8>)>, key: Seq<u8>) -> bool {
    exists|i: int| 0 <= i < entries.len() && (#[trigger] entries[i]).0@ == key
}

/// The position of an entry with the key `key`.
spec fn position_of(entries: Seq<(Vec<u8>, Vec<u8>)>, key: Seq<u8>) -> int {
    choose|i: int| 0 <= i < entries.len() && (#[trigger] entries[i]).0@ == key
}

/// No two entries share a key.
spec fn distinct_keys(entries: Seq<(Vec<u8>, Vec<u8>)>) -> bool {
    forall|i: int, j: int|
        0 <= i < entries.len() && 0 <= j < entries.len() && (#[trigger] entries[i]).0@ == (
        #[trigger] entries[j]).0@ ==> i == j
}

/// The map that a list of entries with distinct keys stands for.
spec fn entry_map(entries: Seq<(Vec<u8>, Vec<u8>)>) -> Contents {
    Map::new(
        |key: Seq<u8>| has_key(entries, key),
        |key: Seq<u8>| entries[position_of(entries, key)].1@,
    )
}

/// In a list with distinct keys, the entry at `i` is the one its key maps to.
proof fn lemma_entry_found(entries: Seq<(Vec<u8>, Vec<u8>)>, i: int)
    requires
        distinct_keys(entries),
        0 <= i < entries.len(),
    ensures
        entry_map(entries).contains_key(entries[i].0@),
        entry_map(entries)[entries[i].0@] == entries[i].1@,
{
    let key = entries[i].0@;
    assert(has_key(entries, key));
    assert(position_of(entries, key) == i);
}

/// Whether two byte strings are equal.
fn bytes_eq(a: &[u8], b: &[u8]) -> (equal: bool)
    ensures
        equal == (a@ == b@),
{
    if a.len() != b.len() {
        return false;
    }
    let mut i: usize = 0;
    while i < a.len()
        invariant
            i <= a.len() == b.len(),
            forall|j: int| 0 <= j < i ==> a@[j] == b@[j],
        decreases a.len() - i,
    {
        if a[i] != b[i] {
            return false;
        }
        i += 1;
    }
    assert(a@ =~= b@);
    true
}

/// The position of the entry for `key`, if there is one.
fn find(entries: &Vec<(Vec<u8>, Vec<u8>)>, key: &[u8]) -> (found: Option<usize>)
    ensures
        match found {
            Some(i) => i < entries.len() && entries@[i as int].0@ == key@,
            None => !has_key(entries@, key@),
        },
{
    let mut i: usize = 0;
    while i < entries.len()
        invariant
            i <= entries.len(),
            forall|j: int| 0 <= j < i ==> (#[trigger] entries@[j]).0@ != key@,
        decreases entries.len() - i,
    {
        if bytes_eq(entries[i].0.as_slice(), key) {
            return Some(i);
        }
        i += 1;
    }
    None
}

fn upsert(entries: &mut Vec<(Vec<u8>, Vec<u8>)>, key: Vec<u8>, value: Vec<u8>)
    requires
        distinct_keys(old(entries)@),
    ensures
        distinct_keys(final(entries)@),
        entry_map(final(entries)@) == entry_map(old(entries)@).insert(key@, value@),
{
    let ghost before = entries@;
    match find(entries, key.as_slice()) {
        Some(i) => {
            entries[i].1 = value;
            proof {
                let after = entries@;
                assert forall|k: Seq<u8>| #[trigger] has_key(after, k) == has_key(before, k) by {
                    if has_key(before, k) {
                        let j = position_of(before, k);
                        assert(after[j].0@ == k);
                    }
                    if has_key(after, k) {
                        let j = position_of(after, k);
                        assert(before[j].0@ == k);
                    }
                }
                assert forall|k: Seq<u8>| has_key(after, k) implies #[trigger] entry_map(after)[k]
                    == entry_map(before).insert(key@, value@)[k] by {
                    let j = position_of(after, k);
                    lemma_entry_found(after, j);
                    lemma_entry_found(before, j);
                    lemma_entry_found(before, i as int);
                }
            }
        },
        None => {
            entries.push((key, value));
            proof {
                let after = entries@;
                let last = after.len() - 1;
                assert(distinct_keys(after)) by {
                    assert forall|a: int, b: int|
                        0 <= a < after.len() && 0 <= b < after.len() && (#[trigger] after[a]).0@ == (
                        #[trigger] after[b]).0@ implies a == b by {
                        if a < last && b == last {
                            assert(before[a].0@ == key@);
                        }
                        if b < last && a == last {
                            assert(before[b].0@ == key@);
                        }
                    }
                }
                assert forall|k: Seq<u8>| #[trigger] has_key(after, k) == (has_key(before, k) || k == key@) by {
                    if has_key(before, k) {
                        let j = position_of(before, k);
                        assert(after[j].0@ == k);
                    }
                    if k == key@ {
                        assert(after[last].0@ == k);
                    }
                    if has_key(after, k) {
                        let j = position_of(after, k);
                        if j < last {
                            assert(before[j].0@ == k);
                        }
                    }
                }
                assert forall|k: Seq<u8>| has_key(after, k) implies #[trigger] entry_map(after)[k]
                    == entry_map(before).insert(key@, value@)[k] by {
                    let j = position_of(after, k);
                    lemma_entry_found(after, j);
                    if j < last {
                        lemma_entry_found(before, j);
                    }
                }
            }
        },
    }
}

fn discard(entries: &mut Vec<(Vec<u8>, Vec<u8>)>, key: &[u8])
    requires
        distinct_keys(old(entries)@),
    ensures
        distinct_keys(final(entries)@),
        entry_map(final(entries)@) == entry_map(old(entries)@).remove(key@),
{
    let ghost before = entries@;
    match find(entries, key) {
        Some(i) => {
            entries.remove(i);
            proof {
                let after = entries@;
                assert(distinct_keys(after)) by {
                    assert forall|a: int, b: int|
                        0 <= a < after.len() && 0 <= b < after.len() && (#[trigger] after[a]).0@ == (
                        #[trigger] after[b]).0@ implies a == b by {
                        let a0 = if a < i { a } else { a + 1 };
                        let b0 = if b < i { b } else { b + 1 };
                        assert(before[a0].0@ == before[b0].0@);
                    }
                }
                assert forall|k: Seq<u8>| #[trigger] has_key(after, k) == (has_key(before, k) && k != key@) by {
                    if has_key(before, k) && k != key@ {
                        let j = position_of(before, k);
                        let j1 = if j < i { j } else { j - 1 };
                        assert(after[j1].0@ == k);
                    }
                    if has_key(after, k) {
                        let j = position_of(after, k);
                        let j0 = if j < i { j } else { j + 1 };
                        assert(before[j0].0@ == k);
                    }
                }
                assert forall|k: Seq<u8>| has_key(after, k) implies #[trigger] entry_map(after)[k]
                    == entry_map(before).remove(key@)[k] by {
                    let j = position_of(after, k);
                    let j0 = if j < i { j } else { j + 1 };
                    lemma_entry_found(after, j);
                    lemma_entry_found(before, j0);
                }
            }
        },
        None => {},
    }
}

impl MapStore {
    #[verifier::type_invariant]
    spec fn well_formed(self) -> bool {
        distinct_keys(self.entries@)
    }

    /// An empty store.
    pub fn new() -> (store: MapStore)
        ensures
            store@ == Contents::empty(),
    {
        MapStore { entries: Vec::new() }
    }
}

impl Read for MapStore {
    closed spec fn view(&self) -> Contents {
        entry_map(self.entries@)
    }

    open spec fn infallible(&self) -> bool {
        true
    }

    open spec fn atomic(&self) -> bool {
        true
    }

    fn get(&self, key: &[u8]) -> (r: Result<Option<Vec<u8>>, Error>)
        ensures
            r is Ok,
    {
        proof {
            use_type_invariant(self);
        }
        match find(&self.entries, key) {
            Some(i) => {
                proof {
                    lemma_entry_found(self.entries@, i as int);
                }
                Ok(Some(self.entries[i].1.clone()))
            },
            None => Ok(None),
        }
    }
}

impl Write for MapStore {
    fn put(&mut self, key: Vec<u8>, value: Vec<u8>) -> (r: Result<(), Error>)
        ensures
            r is Ok,
    {
        proof {
            use_type_invariant(&*self);
        }
        let mut entries: Vec<(Vec<u8>, Vec<u8>)> = Vec::new();
        std::mem::swap(&mut entries, &mut self.entries);
        upsert(&mut entries, key, value);
        self.entries = entries;
        Ok(())
    }

    fn delete(&mut self, key: &[u8]) -> (r: Result<(), Error>)
        ensures
            r is Ok,
    {
        proof {
            use_type_invariant(&*self);
        }
        let mut entries: Vec<(Vec<u8>, Vec<u8>)> = Vec::new();
        std::mem::swap(&mut entries, &mut self.entries);
        discard(&mut entries, key);
        self.entries = entries;
        Ok(())
    }
}

} // verus!
