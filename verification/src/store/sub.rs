//! Sub-stores: views of a store restricted to the keys under a path.
//!
//! A view is a path and nothing else. It owns no data and no store; the store
//! it looks into is lent to each operation. The key `k` of the view at path
//! `p` is the key `p + k` of the store.

use crate::error::Error;
use crate::store::{bytes_of, lookup, Contents, Path, Read, Write};
use vstd::prelude::*;

verus! {

/// A view of a store under a path.
#[derive(Debug)]
pub struct Store {
    prefix: Vec<u8>,
}

impl View for Store {
    type V = Path;

    /// The path of the view.
    closed spec fn view(&self) -> Path {
        self.prefix@
    }
}

/// What the view at `path` shows of a store that holds `contents`.
pub open spec fn within(contents: Contents, path: Path) -> Contents {
    Map::new(|key: Seq<u8>| contents.contains_key(path + key), |key: Seq<u8>| contents[path + key])
}

/// Whether neither path leads into the sub-store of the other.
pub open spec fn apart(p: Path, q: Path) -> bool {
    !p.is_prefix_of(q) && !q.is_prefix_of(p)
}

fn join(prefix: &Vec<u8>, rest: &[u8]) -> (joined: Vec<u8>)
    ensures
        joined@ == prefix@ + rest@,
{
    let mut joined: Vec<u8> = Vec::new();
    let mut i: usize = 0;
    while i < prefix.len()
        invariant
            i <= prefix.len(),
            joined@ == prefix@.take(i as int),
        decreases prefix.len() - i,
    {
        joined.push(prefix[i]);
        i += 1;
    }
    let mut j: usize = 0;
    while j < rest.len()
        invariant
            j <= rest.len(),
            joined@ == prefix@ + rest@.take(j as int),
        decreases rest.len() - j,
    {
        joined.push(rest[j]);
        j += 1;
    }
    joined
}

impl Store {
    /// The view of a whole store: the one with the empty path.
    pub fn new() -> (store: Store)
        ensures
            store@ == Path::empty(),
    {
        Store { prefix: Vec::new() }
    }

    /// The view under `segment` of what this view shows. Nothing is copied but
    /// the path.
    pub fn sub(&self, segment: &[u8]) -> (store: Store)
        ensures
            store@ == self@ + segment@,
    {
        Store { prefix: join(&self.prefix, segment) }
    }

    /// The path of the view.
    pub fn path(&self) -> (path: &[u8])
        ensures
            path@ == self@,
    {
        self.prefix.as_slice()
    }

    /// Reads the value that `backing` holds under `key` of this view: the
    /// answer is the store's own to the joined key, a failure included.
    pub fn get<B: Read>(&self, backing: &B, key: &[u8]) -> (r: Result<Option<Vec<u8>>, Error>)
        ensures
            exists|full: &[u8]|
                full@ == self@ + key@ && #[trigger] call_ensures(
                    <B as Read>::get,
                    (backing, full),
                    r,
                ),
            r matches Ok(found) ==> bytes_of(found) == lookup(backing@, self@ + key@),
            !backing@.contains_key(self@ + key@) ==> r is Ok,
            backing.infallible() ==> r is Ok,
    {
        let full = join(&self.prefix, key);
        backing.get(full.as_slice())
    }

    /// Stores `value` in `backing` under `key` of this view: the answer is the
    /// store's own to the joined key, a failure included.
    pub fn put<B: Write>(&self, backing: &mut B, key: Vec<u8>, value: Vec<u8>) -> (r: Result<
        (),
        Error,
    >)
        ensures
            exists|store: &mut B, full: Vec<u8>|
                mut_ref_current(store) == *old(backing) && mut_ref_future(store) == *final(backing)
                    && full@ == self@ + key@ && #[trigger] call_ensures(
                    <B as Write>::put,
                    (store, full, value),
                    r,
                ),
            r is Ok ==> final(backing)@ == old(backing)@.insert(self@ + key@, value@),
            old(backing).infallible() ==> r is Ok && final(backing).infallible(),
            old(backing).atomic() ==> final(backing).atomic() && (r is Err ==> final(backing)@
                == old(backing)@),
    {
        let full = join(&self.prefix, key.as_slice());
        backing.put(full, value)
    }

    /// Removes `key` of this view from `backing`: the answer is the store's
    /// own to the joined key, a failure included.
    pub fn delete<B: Write>(&self, backing: &mut B, key: &[u8]) -> (r: Result<(), Error>)
        ensures
            exists|store: &mut B, full: &[u8]|
                mut_ref_current(store) == *old(backing) && mut_ref_future(store) == *final(backing)
                    && full@ == self@ + key@ && #[trigger] call_ensures(
                    <B as Write>::delete,
                    (store, full),
                    r,
                ),
            r is Ok ==> final(backing)@ == old(backing)@.remove(self@ + key@),
            !old(backing)@.contains_key(self@ + key@) ==> r is Ok,
            old(backing).infallible() ==> r is Ok && final(backing).infallible(),
            old(backing).atomic() ==> final(backing).atomic() && (r is Err ==> final(backing)@
                == old(backing)@),
    {
        let full = join(&self.prefix, key);
        backing.delete(full.as_slice())
    }
}

/// Two keys under the same path are the same key of the store only if they
/// are the same key of the view.
pub proof fn lemma_join_injective(path: Path, a: Seq<u8>, b: Seq<u8>)
    requires
        path + a == path + b,
    ensures
        a == b,
{
    assert(a =~= (path + a).skip(path.len() as int));
    assert(b =~= (path + b).skip(path.len() as int));
}

/// Paths concatenate: the sub-store under `q` of the sub-store under `p` is the
/// sub-store under `p + q`, key for key.
pub proof fn lemma_sub_of_sub(contents: Contents, p: Path, q: Path)
    ensures
        within(within(contents, p), q) == within(contents, p + q),
        forall|key: Seq<u8>| (p + q) + key == p + (#[trigger] (q + key)),
{
    assert forall|key: Seq<u8>| (p + q) + key == p + (#[trigger] (q + key)) by {
        assert((p + q) + key =~= p + (q + key));
    }
}

/// A write through a view is a write into what the view shows.
pub proof fn lemma_put_within(contents: Contents, path: Path, key: Seq<u8>, value: Seq<u8>)
    ensures
        within(contents.insert(path + key, value), path) == within(contents, path).insert(
            key,
            value,
        ),
{
    let after = within(contents.insert(path + key, value), path);
    let expected = within(contents, path).insert(key, value);
    assert forall|k: Seq<u8>| #[trigger]
        after.dom().contains(k) == expected.dom().contains(k) by {
        if path + k == path + key {
            lemma_join_injective(path, k, key);
        }
    }
    assert forall|k: Seq<u8>| after.dom().contains(k) implies #[trigger] after[k] == expected[k] by {
        if path + k == path + key {
            lemma_join_injective(path, k, key);
        }
    }
}

/// A removal through a view is a removal from what the view shows.
pub proof fn lemma_delete_within(contents: Contents, path: Path, key: Seq<u8>)
    ensures
        within(contents.remove(path + key), path) == within(contents, path).remove(key),
{
    let after = within(contents.remove(path + key), path);
    let expected = within(contents, path).remove(key);
    assert forall|k: Seq<u8>| #[trigger]
        after.dom().contains(k) == expected.dom().contains(k) by {
        if path + k == path + key {
            lemma_join_injective(path, k, key);
        }
    }
    assert forall|k: Seq<u8>| after.dom().contains(k) implies #[trigger] after[k] == expected[k] by {
        if path + k == path + key {
            lemma_join_injective(path, k, key);
        }
    }
}

/// Keys under paths that lie apart never meet.
pub proof fn lemma_apart_keys_differ(p: Path, a: Seq<u8>, q: Path, b: Seq<u8>)
    requires
        apart(p, q),
    ensures
        p + a != q + b,
{
    if p + a == q + b {
        let whole = p + a;
        assert(p =~= whole.take(p.len() as int));
        assert(q =~= whole.take(q.len() as int));
    }
}

/// A path leads to no key under a path apart from it.
pub proof fn lemma_apart_is_no_prefix(p: Path, q: Path, key: Seq<u8>)
    requires
        apart(p, q),
    ensures
        !p.is_prefix_of(q + key),
{
    let whole = q + key;
    if p.is_prefix_of(whole) {
        if p.len() <= q.len() {
            assert(p =~= q.take(p.len() as int));
        } else {
            assert(q =~= p.take(q.len() as int));
        }
    }
}

/// Writing or removing under one path changes nothing of what a view under a
/// path apart from it shows.
pub proof fn lemma_isolation(contents: Contents, p: Path, key: Seq<u8>, value: Seq<u8>, q: Path)
    requires
        apart(p, q),
    ensures
        within(contents.insert(p + key, value), q) == within(contents, q),
        within(contents.remove(p + key), q) == within(contents, q),
{
    assert forall|k: Seq<u8>| q + k != p + key by {
        lemma_apart_keys_differ(p, key, q, k);
    }
}

/// Writing or removing under a path changes no key of the store that does not
/// begin with that path.
pub proof fn lemma_outside_untouched(
    contents: Contents,
    p: Path,
    key: Seq<u8>,
    value: Seq<u8>,
    other: Seq<u8>,
)
    requires
        !p.is_prefix_of(other),
    ensures
        lookup(contents.insert(p + key, value), other) == lookup(contents, other),
        lookup(contents.remove(p + key), other) == lookup(contents, other),
{
    if other == p + key {
        assert(p =~= other.take(p.len() as int));
    }
}

} // verus!
