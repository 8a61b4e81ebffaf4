//! Materialization: turning an encoding into a live value bound to a view of
//! a store, and a live value back into its encoding.
//!
//! `create` reads nothing from the store: a value is made of its encoding and
//! of the path it is bound to. `flush` gives the value up, writes what it
//! holds under that path and hands the encoding back.

pub mod leaf;
pub mod primitive;
pub mod record;

pub use leaf::{Leaf, LeafView};
pub use primitive::Primitive;
pub use record::{FieldList, Record};
pub use vstd::view::View;

use crate::error::Error;
use crate::store::sub::Store;
use crate::store::{lookup, Contents, Path, Write};
use vstd::prelude::*;

verus! {

/// A type whose values live in a store.
pub trait State: Sized + View {
    /// The persisted form of a value: pure data, with no store in it.
    type Encoding: View;

    /// The failure with which the type itself refuses to be flushed, whatever
    /// the value and the store: a record, at any depth in the type, that has
    /// more fields than positions. `None` for a type that is laid out well.
    spec fn refusal() -> Option<Error>;

    /// Whether `value` is bound to the view at `path`.
    spec fn bound(value: Self::V, path: Path) -> bool;

    /// What `create` makes of `data` for the view at `path`.
    spec fn created(path: Path, data: <Self::Encoding as View>::V) -> Result<Self::V, Error>;

    /// The encoding that `flush` hands back for `value`.
    spec fn encoded(value: Self::V) -> <Self::Encoding as View>::V;

    /// What a store that held `contents` holds once `value` is flushed.
    spec fn flushed(value: Self::V, contents: Contents) -> Contents;

    /// What a store that held `contents` holds when the flush of `value` has
    /// failed with `error`, if a failed write changes nothing: what was
    /// written before the failure stays written.
    spec fn interrupted(value: Self::V, contents: Contents, error: Error) -> Contents;

    /// A value made for a view is bound to it.
    proof fn lemma_created_is_bound(path: Path, data: <Self::Encoding as View>::V)
        ensures
            Self::created(path, data) matches Ok(value) ==> Self::bound(value, path),
    ;

    /// The type of a value that is bound to a view refuses no flush: on a
    /// store that never fails, whatever `create` has made can be flushed.
    proof fn lemma_bound_is_not_refused(value: Self::V, path: Path)
        requires
            Self::bound(value, path),
        ensures
            Self::refusal() is None,
    ;

    /// Creating from what a value would flush to, for the view the value is
    /// bound to, gives the value back.
    proof fn lemma_round_trip(value: Self::V, path: Path)
        requires
            Self::bound(value, path),
        ensures
            Self::created(path, Self::encoded(value)) == Ok::<Self::V, Error>(value),
    ;

    /// Flushing a value changes nothing outside the sub-store it is bound to.
    proof fn lemma_flush_is_confined(
        value: Self::V,
        path: Path,
        contents: Contents,
        key: Seq<u8>,
    )
        requires
            Self::bound(value, path),
            !path.is_prefix_of(key),
        ensures
            lookup(Self::flushed(value, contents), key) == lookup(contents, key),
    ;

    /// Makes the live value that `data` encodes and binds it to `store`.
    fn create(store: Store, data: Self::Encoding) -> (r: Result<Self, Error>)
        ensures
            match Self::created(store@, data@) {
                Ok(value) => r matches Ok(made) && made@ == value,
                Err(error) => r == Err::<Self, Error>(error),
            },
    ;

    /// Gives the value up: writes what it holds into `backing`, under the path
    /// it is bound to, and returns its encoding.
    fn flush<B: Write>(self, backing: &mut B) -> (r: Result<Self::Encoding, Error>)
        ensures
            r matches Ok(data) ==> data@ == Self::encoded(self@) && final(backing)@
                == Self::flushed(self@, old(backing)@),
            r is Ok ==> Self::refusal() is None,
            old(backing).infallible() ==> final(backing).infallible(),
            old(backing).infallible() ==> match Self::refusal() {
                Some(error) => r == Err::<Self::Encoding, Error>(error),
                None => r is Ok,
            },
            old(backing).atomic() ==> final(backing).atomic(),
            r matches Err(error) ==> (old(backing).atomic() ==> final(backing)@
                == Self::interrupted(self@, old(backing)@, error)),
    ;
}

} // verus!
