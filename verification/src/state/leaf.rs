//! Leaves: primitives bound to a view of a store.

use crate::error::Error;
use crate::state::primitive::Primitive;
use crate::state::State;
use crate::store::sub::Store;
use crate::store::{Contents, Path, Write};
use vstd::prelude::*;

verus! {

/// A primitive bound to the view it lives under. Its bytes are stored under
/// the path of the view itself.
#[derive(Debug)]
pub struct Leaf<P> {
    store: Store,
    value: P,
}

/// What a leaf is: a value and the path it is bound to.
pub struct LeafView<P> {
    pub path: Path,
    pub value: P,
}

impl<P> View for Leaf<P> {
    type V = LeafView<P>;

    closed spec fn view(&self) -> LeafView<P> {
        LeafView { path: self.store@, value: self.value }
    }
}

impl<P> Leaf<P> {
    /// Binds `value` to `store`.
    pub fn new(store: Store, value: P) -> (leaf: Leaf<P>)
        ensures
            leaf@ == (LeafView { path: store@, value }),
    {
        Leaf { store, value }
    }

    /// The value the leaf holds.
    pub fn get(&self) -> (value: &P)
        ensures
            *value == self@.value,
    {
        &self.value
    }

    /// Replaces the value the leaf holds; the binding stays.
    pub fn set(&mut self, value: P)
        ensures
            final(self)@ == (LeafView { path: old(self)@.path, value }),
    {
        self.value = value;
    }

    /// The view the leaf is bound to.
    pub fn store(&self) -> (store: &Store)
        ensures
            store@ == self@.path,
    {
        &self.store
    }
}

/// The answer of the `put` behind the answer of a leaf's flush.
pub open spec fn put_answer(r: Result<Vec<u8>, Error>) -> Result<(), Error> {
    match r {
        Ok(_) => Ok(()),
        Err(error) => Err(error),
    }
}

impl<P: Primitive> State for Leaf<P> {
    type Encoding = Vec<u8>;

    open spec fn refusal() -> Option<Error> {
        None
    }

    open spec fn bound(value: LeafView<P>, path: Path) -> bool {
        value.path == path
    }

    open spec fn created(path: Path, data: Seq<u8>) -> Result<LeafView<P>, Error> {
        match P::decoded(data) {
            Some(value) => Ok(LeafView { path, value }),
            None => Err(Error::Decode),
        }
    }

    open spec fn encoded(value: LeafView<P>) -> Seq<u8> {
        value.value.encoded()
    }

    open spec fn flushed(value: LeafView<P>, contents: Contents) -> Contents {
        contents.insert(value.path, value.value.encoded())
    }

    open spec fn interrupted(value: LeafView<P>, contents: Contents, error: Error) -> Contents {
        contents
    }

    proof fn lemma_created_is_bound(path: Path, data: Seq<u8>) {
    }

    proof fn lemma_bound_is_not_refused(value: LeafView<P>, path: Path) {
    }

    proof fn lemma_round_trip(value: LeafView<P>, path: Path) {
        P::lemma_decode_encode(value.value);
    }

    proof fn lemma_flush_is_confined(
        value: LeafView<P>,
        path: Path,
        contents: Contents,
        key: Seq<u8>,
    ) {
    }

    fn create(store: Store, data: Vec<u8>) -> (r: Result<Self, Error>) {
        match P::decode(data.as_slice()) {
            Some(value) => Ok(Leaf { store, value }),
            None => Err(Error::Decode),
        }
    }

    /// Writes the bytes of the value under the path of the view, in one `put`,
    /// and hands the store's failure on as the store reported it.
    fn flush<B: Write>(self, backing: &mut B) -> (r: Result<Vec<u8>, Error>)
        ensures
            exists|store: &mut B, key: Vec<u8>, bytes: Vec<u8>|
                mut_ref_current(store) == *old(backing) && mut_ref_future(store) == *final(backing)
                    && key@ == self@.path && bytes@ == self@.value.encoded()
                    && #[trigger] call_ensures(
                    <B as Write>::put,
                    (store, key, bytes),
                    put_answer(r),
                ),
    {
        let bytes = self.value.encode();
        let stored = bytes.clone();
        let ghost path = self.store@;
        let answer = self.store.put(backing, Vec::new(), stored);
        let ghost put = answer;
        let r = match answer {
            Ok(()) => Ok(bytes),
            Err(error) => Err(error),
        };
        proof {
            assert(path + Seq::<u8>::empty() =~= path);
            assert(put_answer(r) == put) by {
                match put {
                    Ok(unit) => {
                        assert(unit == ());
                    },
                    Err(error) => {
                        assert(r == Err::<Vec<u8>, Error>(error));
                    },
                }
            }
        }
        r
    }
}

} // verus!
