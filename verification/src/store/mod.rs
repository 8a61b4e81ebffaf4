//! The store capability: exact-key reads and writes over byte keys and byte
//! values, with a mathematical map as the model of what a store holds.

pub mod mapstore;
pub mod share;
pub mod sub;

pub use mapstore::MapStore;
pub use share::{Registry, Shared};
pub use sub::Store;

use crate::error::Error;
use vstd::prelude::*;

verus! {

/// A key, or the beginning of one.
pub type Path = Seq<u8>;

/// What a store holds: a map from keys to values.
pub type Contents = Map<Seq<u8>, Seq<u8>>;

/// The value stored under `key`, if there is one.
pub open spec fn lookup(contents: Contents, key: Seq<u8>) -> Option<Seq<u8>> {
    if contents.contains_key(key) {
        Some(contents[key])
    } else {
        None
    }
}

/// The bytes of an optional value.
pub open spec fn bytes_of(found: Option<Vec<u8>>) -> Option<Seq<u8>> {
    match found {
        Some(value) => Some(value@),
        None => None,
    }
}

/// Read access to a store.
///
/// Whether an operation succeeds is the backend's business, and so is what a
/// failed write leaves behind, unless the backend says of itself that it never
/// fails, or that its failed writes change nothing. What a successful
/// operation returns and changes is not.
pub trait Read {
    /// What the store holds.
    spec fn view(&self) -> Contents;

    /// Whether this is a store whose operations never fail.
    spec fn infallible(&self) -> bool;

    /// Whether this is a store that a failed write leaves as it was.
    spec fn atomic(&self) -> bool;

    /// Reads the value stored under exactly `key`. A missing key is no error.
    fn get(&self, key: &[u8]) -> (r: Result<Option<Vec<u8>>, Error>)
        ensures
            r matches Ok(found) ==> bytes_of(found) == lookup(self@, key@),
            !self@.contains_key(key@) ==> r is Ok,
            self.infallible() ==> r is Ok,
    ;
}

/// Write access to a store.
pub trait Write: Read {
    /// Stores `value` under `key`, replacing what was there.
    fn put(&mut self, key: Vec<u8>, value: Vec<u8>) -> (r: Result<(), Error>)
        ensures
            r is Ok ==> final(self)@ == old(self)@.insert(key@, value@),
            old(self).infallible() ==> r is Ok && final(self).infallible(),
            old(self).atomic() ==> final(self).atomic() && (r is Err ==> final(self)@ == old(self)@),
    ;

    /// Removes `key`. Removing a key that is not there changes nothing and is
    /// no error.
    fn delete(&mut self, key: &[u8]) -> (r: Result<(), Error>)
        ensures
            r is Ok ==> final(self)@ == old(self)@.remove(key@),
            !old(self)@.contains_key(key@) ==> r is Ok,
            old(self).infallible() ==> r is Ok && final(self).infallible(),
            old(self).atomic() ==> final(self).atomic() && (r is Err ==> final(self)@ == old(self)@),
    ;
}

} // verus!
