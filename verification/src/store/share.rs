//! Shared stores: several owners, one store.
//!
//! A [`Registry`] owns the stores; a [`Shared`] handle names one of them.
//! Whatever reaches a store, to read it or to write it, borrows the registry
//! exclusively, for its own duration and no longer: `get`, `put`, `delete`
//! and `borrow_mut` all take `&mut Registry`. A call therefore has the store
//! to itself, and a call nested in another one on the same store cannot be
//! written: such a program does not compile. `is_live` and `shares` read the
//! registry's own count and never the store.

use crate::error::Error;
use crate::store::{bytes_of, lookup, Read, Write};
use std::marker::PhantomData;
use vstd::prelude::*;

verus! {

struct Slot<T> {
    store: Option<T>,
    shares: usize,
}

/// The stores that are shared, each with the number of handles to it.
pub struct Registry<T> {
    slots: Vec<Slot<T>>,
}

/// A handle to a store in a [`Registry`].
///
/// Handles are made by [`Shared::new`] and [`Shared::clone`] and given up by
/// [`Shared::release`]; the registry counts them.
#[derive(Debug)]
pub struct Shared<T> {
    id: usize,
    store: PhantomData<T>,
}

impl<T> Registry<T> {
    /// The number of stores that were ever shared through this registry.
    pub closed spec fn len(self) -> nat {
        self.slots@.len()
    }

    /// Whether store number `id` is still held by some handle.
    pub closed spec fn live(self, id: int) -> bool {
        &&& 0 <= id < self.slots@.len()
        &&& self.slots@[id].store is Some
        &&& self.slots@[id].shares >= 1
    }

    /// The number of handles to store number `id`.
    pub closed spec fn shares(self, id: int) -> nat {
        if 0 <= id < self.slots@.len() {
            self.slots@[id].shares as nat
        } else {
            0
        }
    }

    /// Store number `id`.
    pub closed spec fn store(self, id: int) -> T {
        self.slots@[id].store->0
    }

    /// Whether `self` and `other` agree on every store but number `id`.
    pub open spec fn same_elsewhere(self, other: Self, id: int) -> bool {
        &&& forall|j: int| j != id ==> #[trigger] self.live(j) == other.live(j)
        &&& forall|j: int| j != id ==> #[trigger] self.shares(j) == other.shares(j)
        &&& forall|j: int| j != id && other.live(j) ==> #[trigger] self.store(j) == other.store(j)
    }

    /// A registry without stores.
    pub fn new() -> (registry: Registry<T>)
        ensures
            registry.len() == 0,
            forall|id: int| !registry.live(id),
    {
        Registry { slots: Vec::new() }
    }
}

impl<T> Shared<T> {
    /// The number of the store that the handle names.
    pub closed spec fn id(self) -> int {
        self.id as int
    }

    /// Whether two handles name the same store.
    pub open spec fn same_store(self, other: Shared<T>) -> bool {
        self.id() == other.id()
    }

    /// Hands `inner` over to the registry and returns the first handle to it.
    pub fn new(registry: &mut Registry<T>, inner: T) -> (handle: Shared<T>)
        ensures
            handle.id() == old(registry).len(),
            final(registry).len() == old(registry).len() + 1,
            final(registry).live(handle.id()),
            final(registry).shares(handle.id()) == 1,
            final(registry).store(handle.id()) == inner,
            final(registry).same_elsewhere(*old(registry), handle.id()),
    {
        let id = registry.slots.len();
        registry.slots.push(Slot { store: Some(inner), shares: 1 });
        Shared { id, store: PhantomData }
    }

    /// Whether the handle's store is still in the registry.
    pub fn is_live(&self, registry: &Registry<T>) -> (live: bool)
        ensures
            live == registry.live(self.id()),
    {
        self.id < registry.slots.len() && registry.slots[self.id].store.is_some()
            && registry.slots[self.id].shares >= 1
    }

    /// The number of handles to the handle's store.
    pub fn shares(&self, registry: &Registry<T>) -> (count: usize)
        ensures
            count == registry.shares(self.id()),
    {
        if self.id < registry.slots.len() {
            registry.slots[self.id].shares
        } else {
            0
        }
    }

    /// Another handle to the same store.
    pub fn clone(&self, registry: &mut Registry<T>) -> (handle: Shared<T>)
        requires
            old(registry).live(self.id()),
            old(registry).shares(self.id()) < usize::MAX,
        ensures
            handle.same_store(*self),
            final(registry).len() == old(registry).len(),
            final(registry).live(self.id()),
            final(registry).shares(self.id()) == old(registry).shares(self.id()) + 1,
            final(registry).store(self.id()) == old(registry).store(self.id()),
            final(registry).same_elsewhere(*old(registry), self.id()),
    {
        let slot = &mut registry.slots[self.id];
        slot.shares = slot.shares + 1;
        Shared { id: self.id, store: PhantomData }
    }

    /// Gives the handle up. The last handle to a store takes the store out of
    /// the registry and returns it.
    pub fn release(self, registry: &mut Registry<T>) -> (store: Option<T>)
        requires
            old(registry).live(self.id()),
        ensures
            final(registry).len() == old(registry).len(),
            final(registry).shares(self.id()) == old(registry).shares(self.id()) - 1,
            final(registry).same_elsewhere(*old(registry), self.id()),
            old(registry).shares(self.id()) == 1 ==> store == Some(old(registry).store(self.id()))
                && !final(registry).live(self.id()),
            old(registry).shares(self.id()) > 1 ==> store is None && final(registry).live(
                self.id(),
            ) && final(registry).store(self.id()) == old(registry).store(self.id()),
    {
        let slot = &mut registry.slots[self.id];
        slot.shares = slot.shares - 1;
        if slot.shares == 0 {
            slot.store.take()
        } else {
            None
        }
    }

    /// Lends the store out, to read or to write, to one borrower at a time.
    /// Whatever the borrower leaves behind is what every handle to the store
    /// sees from then on.
    pub fn borrow_mut<'a>(&self, registry: &'a mut Registry<T>) -> (store: &'a mut T)
        requires
            old(registry).live(self.id()),
        ensures
            *store == old(registry).store(self.id()),
            final(registry).store(self.id()) == *final(store),
            final(registry).len() == old(registry).len(),
            final(registry).live(self.id()),
            final(registry).shares(self.id()) == old(registry).shares(self.id()),
            final(registry).same_elsewhere(*old(registry), self.id()),
    {
        registry.slots[self.id].store.as_mut().unwrap()
    }
}

impl<T: Read> Shared<T> {
    /// Reads the value stored under exactly `key`: the answer is the store's
    /// own, a failure included, and the registry is left as it was.
    pub fn get(&self, registry: &mut Registry<T>, key: &[u8]) -> (r: Result<
        Option<Vec<u8>>,
        Error,
    >)
        requires
            old(registry).live(self.id()),
        ensures
            *final(registry) == *old(registry),
            call_ensures(<T as Read>::get, (&old(registry).store(self.id()), key), r),
            r matches Ok(found) ==> bytes_of(found) == lookup(
                old(registry).store(self.id())@,
                key@,
            ),
            !old(registry).store(self.id())@.contains_key(key@) ==> r is Ok,
            old(registry).store(self.id()).infallible() ==> r is Ok,
    {
        match &registry.slots[self.id].store {
            Some(store) => store.get(key),
            None => unreached(),
        }
    }
}

impl<T: Write> Shared<T> {
    /// Stores `value` under `key`, replacing what was there: the answer is
    /// the store's own, a failure included.
    pub fn put(&mut self, registry: &mut Registry<T>, key: Vec<u8>, value: Vec<u8>) -> (r:
        Result<(), Error>)
        requires
            old(registry).live(old(self).id()),
        ensures
            *final(self) == *old(self),
            exists|store: &mut T|
                mut_ref_current(store) == old(registry).store(old(self).id()) && mut_ref_future(
                    store,
                ) == final(registry).store(old(self).id()) && #[trigger] call_ensures(
                    <T as Write>::put,
                    (store, key, value),
                    r,
                ),
            final(registry).len() == old(registry).len(),
            final(registry).live(old(self).id()),
            final(registry).shares(old(self).id()) == old(registry).shares(old(self).id()),
            final(registry).same_elsewhere(*old(registry), old(self).id()),
            r is Ok ==> final(registry).store(old(self).id())@ == old(registry).store(
                old(self).id(),
            )@.insert(key@, value@),
            old(registry).store(old(self).id()).infallible() ==> r is Ok && final(registry).store(
                old(self).id(),
            ).infallible(),
            old(registry).store(old(self).id()).atomic() ==> final(registry).store(
                old(self).id(),
            ).atomic() && (r is Err ==> final(registry).store(old(self).id())@ == old(
                registry,
            ).store(old(self).id())@),
    {
        self.borrow_mut(registry).put(key, value)
    }

    /// Removes `key`; a key that is not there is no error. The answer is the
    /// store's own, a failure included.
    pub fn delete(&mut self, registry: &mut Registry<T>, key: &[u8]) -> (r: Result<
        (),
        Error,
    >)
        requires
            old(registry).live(old(self).id()),
        ensures
            *final(self) == *old(self),
            exists|store: &mut T|
                mut_ref_current(store) == old(registry).store(old(self).id()) && mut_ref_future(
                    store,
                ) == final(registry).store(old(self).id()) && #[trigger] call_ensures(
                    <T as Write>::delete,
                    (store, key),
                    r,
                ),
            final(registry).len() == old(registry).len(),
            final(registry).live(old(self).id()),
            final(registry).shares(old(self).id()) == old(registry).shares(old(self).id()),
            final(registry).same_elsewhere(*old(registry), old(self).id()),
            r is Ok ==> final(registry).store(old(self).id())@ == old(registry).store(
                old(self).id(),
            )@.remove(key@),
            !old(registry).store(old(self).id())@.contains_key(key@) ==> r is Ok,
            old(registry).store(old(self).id()).infallible() ==> r is Ok && final(registry).store(
                old(self).id(),
            ).infallible(),
            old(registry).store(old(self).id()).atomic() ==> final(registry).store(
                old(self).id(),
            ).atomic() && (r is Err ==> final(registry).store(old(self).id())@ == old(
                registry,
            ).store(old(self).id())@),
    {
        self.borrow_mut(registry).delete(key)
    }
}

/// What is written through one handle is what every handle to the same store
/// reads, at once; every other key reads as before.
pub proof fn lemma_write_is_shared<T: Read>(
    before: Registry<T>,
    after: Registry<T>,
    writer: Shared<T>,
    reader: Shared<T>,
    key: Seq<u8>,
    value: Seq<u8>,
)
    requires
        writer.same_store(reader),
        after.store(writer.id())@ == before.store(writer.id())@.insert(key, value),
    ensures
        lookup(after.store(reader.id())@, key) == Some(value),
        forall|other: Seq<u8>|
            other != key ==> lookup(after.store(reader.id())@, other) == lookup(
                before.store(reader.id())@,
                other,
            ),
{
}

/// What is removed through one handle is gone for every handle to the same
/// store; every other key reads as before.
pub proof fn lemma_removal_is_shared<T: Read>(
    before: Registry<T>,
    after: Registry<T>,
    writer: Shared<T>,
    reader: Shared<T>,
    key: Seq<u8>,
)
    requires
        writer.same_store(reader),
        after.store(writer.id())@ == before.store(writer.id())@.remove(key),
    ensures
        lookup(after.store(reader.id())@, key) is None,
        forall|other: Seq<u8>|
            other != key ==> lookup(after.store(reader.id())@, other) == lookup(
                before.store(reader.id())@,
                other,
            ),
{
}

} // verus!
