//! Records: compound values, laid out field by field.
//!
//! The field declared at position `i` is created from the sub-store under the
//! one-byte segment `[i]` and from component `i` of the record's encoding, and
//! is flushed in the same order. A record's fields are written as a list:
//! `(A, (B, (C,)))` declares `A` at position 0, `B` at 1 and `C` at 2. There
//! is no empty list, so there is no record without fields.

use crate::error::Error;
use crate::state::leaf::{Leaf, LeafView};
use crate::state::primitive::Primitive;
use crate::state::State;
use crate::store::sub::{apart, lemma_apart_is_no_prefix, within, Store};
use crate::store::{lookup, Contents, Path, Write};
use crate::wiring::{field_segment, wired_fields, Item, MAX_FIELDS};
use vstd::prelude::*;

verus! {

/// The failure of the field declared at `position`.
pub open spec fn field_error(position: nat, cause: Error) -> Error {
    Error::Field { index: position as u8, cause: Box::new(cause) }
}

/// The path of the field declared at `position` of a record at `path`.
pub open spec fn field_path(path: Path, position: nat) -> Path {
    path + field_segment(position as u8)
}

/// Whether `key` lies under none of the paths of the `count` fields that a
/// record at `path` declares from position `first` on.
pub open spec fn beside_fields(path: Path, first: nat, count: nat, key: Seq<u8>) -> bool {
    forall|position: nat|
        first <= position < first + count ==> !(#[trigger] field_path(path, position)).is_prefix_of(
            key,
        )
}

/// A run of fields declared one after the other.
pub trait FieldList: Sized + View {
    /// The encodings of the fields, in declaration order.
    type Encoding: View;

    /// The number of fields in the run.
    spec fn count() -> nat;

    /// The failure with which the run refuses to be flushed when its first
    /// field is declared at `first`: that of the first field whose own type
    /// refuses, or `TooManyFields` where a field comes before that for which
    /// there is no position.
    spec fn refusal_from(first: nat) -> Option<Error>;

    /// Whether the fields are bound to the sub-stores of the view at `path`
    /// that belong to the positions from `first` on.
    spec fn bound_from(fields: Self::V, path: Path, first: nat) -> bool;

    /// What `create_from` makes of `data`: each field from its own component,
    /// for its own sub-store, or the failure of the first field that fails.
    spec fn created_from(path: Path, first: nat, data: <Self::Encoding as View>::V) -> Result<
        Self::V,
        Error,
    >;

    /// The encodings that `flush_from` hands back.
    spec fn encoded(fields: Self::V) -> <Self::Encoding as View>::V;

    /// What a store that held `contents` holds once the fields are flushed,
    /// one after the other.
    spec fn flushed(fields: Self::V, contents: Contents) -> Contents;

    /// What a store that held `contents` holds when the flush of the fields
    /// has failed with `error`, if a failed write changes nothing: the fields
    /// before the one that failed are flushed, and the one that failed is as
    /// far as it came.
    spec fn interrupted_from(
        fields: Self::V,
        first: nat,
        contents: Contents,
        error: Error,
    ) -> Contents;

    /// Fields made for a view are bound to its sub-stores, position by
    /// position.
    proof fn lemma_created_is_bound(path: Path, first: nat, data: <Self::Encoding as View>::V)
        ensures
            Self::created_from(path, first, data) matches Ok(fields) ==> Self::bound_from(
                fields,
                path,
                first,
            ),
    ;

    /// Fields that are bound to the sub-stores of their positions are a run
    /// that refuses no flush.
    proof fn lemma_bound_is_not_refused(fields: Self::V, path: Path, first: nat)
        requires
            Self::bound_from(fields, path, first),
        ensures
            Self::refusal_from(first) is None,
    ;

    /// Creating from what the fields would flush to, at the positions they
    /// are bound to, gives the fields back.
    proof fn lemma_round_trip(fields: Self::V, path: Path, first: nat)
        requires
            Self::bound_from(fields, path, first),
        ensures
            Self::created_from(path, first, Self::encoded(fields)) == Ok::<Self::V, Error>(fields),
    ;

    /// Flushing the fields of a record changes no key but those under the
    /// fields' own paths: not the keys beside them under the record's path,
    /// and not the keys outside it.
    proof fn lemma_flush_is_confined(
        fields: Self::V,
        path: Path,
        first: nat,
        contents: Contents,
        key: Seq<u8>,
    )
        requires
            Self::bound_from(fields, path, first),
            beside_fields(path, first, Self::count(), key),
        ensures
            lookup(Self::flushed(fields, contents), key) == lookup(contents, key),
    ;

    /// Creates the fields in declaration order, the first of them at position
    /// `first`, and stops at the first failure.
    fn create_from(store: &Store, first: usize, data: Self::Encoding) -> (r: Result<Self, Error>)
        ensures
            match Self::created_from(store@, first as nat, data@) {
                Ok(fields) => r matches Ok(made) && made@ == fields,
                Err(error) => r == Err::<Self, Error>(error),
            },
    ;

    /// Flushes the fields in declaration order and stops at the first failure.
    /// A field that fails is reported with its position. A field for which
    /// there is no position left is refused, once the fields before it are
    /// flushed.
    fn flush_from<B: Write>(self, first: usize, backing: &mut B) -> (r: Result<
        Self::Encoding,
        Error,
    >)
        ensures
            r matches Ok(data) ==> data@ == Self::encoded(self@) && final(backing)@
                == Self::flushed(self@, old(backing)@),
            r is Ok ==> Self::refusal_from(first as nat) is None,
            first >= MAX_FIELDS ==> r == Err::<Self::Encoding, Error>(Error::TooManyFields)
                && final(backing)@ == old(backing)@,
            r matches Err(Error::TooManyFields) ==> Self::refusal_from(first as nat) == Some(
                Error::TooManyFields,
            ) && first + Self::count() > MAX_FIELDS && final(backing)@ == Self::interrupted_from(
                self@,
                first as nat,
                old(backing)@,
                Error::TooManyFields,
            ),
            r matches Err(error) ==> error is TooManyFields || (error matches Error::Field {
                index,
                ..
            } && first <= index),
            old(backing).infallible() ==> final(backing).infallible(),
            old(backing).infallible() ==> match Self::refusal_from(first as nat) {
                Some(error) => r == Err::<Self::Encoding, Error>(error),
                None => r is Ok,
            },
            old(backing).atomic() ==> final(backing).atomic(),
            r matches Err(error) ==> (old(backing).atomic() ==> final(backing)@
                == Self::interrupted_from(self@, first as nat, old(backing)@, error)),
    ;
}

/// A key that the record's path does not lead to is no key of a field.
pub proof fn lemma_field_path_extends(path: Path, position: nat, key: Seq<u8>)
    requires
        !path.is_prefix_of(key),
    ensures
        !field_path(path, position).is_prefix_of(key),
{
    let field = field_path(path, position);
    if field.is_prefix_of(key) {
        assert(path =~= field.take(path.len() as int));
        assert(path =~= key.take(path.len() as int));
    }
}

/// The view of the field declared at `position`, if there is such a position.
fn field_store(store: &Store, position: usize) -> (field: Option<Store>)
    ensures
        match field {
            Some(field) => position < MAX_FIELDS && field@ == field_path(store@, position as nat),
            None => position >= MAX_FIELDS,
        },
{
    if position >= MAX_FIELDS {
        return None;
    }
    let mut segment: Vec<u8> = Vec::new();
    segment.push(position as u8);
    Some(store.sub(segment.as_slice()))
}

/// The last field of a record.
impl<A: State> FieldList for (A,) {
    type Encoding = (A::Encoding,);

    open spec fn count() -> nat {
        1
    }

    open spec fn refusal_from(first: nat) -> Option<Error> {
        if first >= MAX_FIELDS {
            Some(Error::TooManyFields)
        } else {
            match A::refusal() {
                Some(cause) => Some(field_error(first, cause)),
                None => None,
            }
        }
    }

    open spec fn bound_from(fields: Self::V, path: Path, first: nat) -> bool {
        first < MAX_FIELDS && A::bound(fields.0, field_path(path, first))
    }

    open spec fn created_from(path: Path, first: nat, data: <Self::Encoding as View>::V) -> Result<
        Self::V,
        Error,
    > {
        if first >= MAX_FIELDS {
            Err(Error::TooManyFields)
        } else {
            match A::created(field_path(path, first), data.0) {
                Ok(field) => Ok((field,)),
                Err(cause) => Err(field_error(first, cause)),
            }
        }
    }

    open spec fn encoded(fields: Self::V) -> <Self::Encoding as View>::V {
        (A::encoded(fields.0),)
    }

    open spec fn flushed(fields: Self::V, contents: Contents) -> Contents {
        A::flushed(fields.0, contents)
    }

    open spec fn interrupted_from(
        fields: Self::V,
        first: nat,
        contents: Contents,
        error: Error,
    ) -> Contents {
        match error {
            Error::Field { cause, .. } => A::interrupted(fields.0, contents, *cause),
            _ => contents,
        }
    }

    proof fn lemma_created_is_bound(path: Path, first: nat, data: <Self::Encoding as View>::V) {
        A::lemma_created_is_bound(field_path(path, first), data.0);
    }

    proof fn lemma_bound_is_not_refused(fields: Self::V, path: Path, first: nat) {
        A::lemma_bound_is_not_refused(fields.0, field_path(path, first));
    }

    proof fn lemma_round_trip(fields: Self::V, path: Path, first: nat) {
        A::lemma_round_trip(fields.0, field_path(path, first));
    }

    proof fn lemma_flush_is_confined(
        fields: Self::V,
        path: Path,
        first: nat,
        contents: Contents,
        key: Seq<u8>,
    ) {
        assert(!field_path(path, first).is_prefix_of(key));
        A::lemma_flush_is_confined(fields.0, field_path(path, first), contents, key);
    }

    fn create_from(store: &Store, first: usize, data: Self::Encoding) -> (r: Result<Self, Error>) {
        let at = match field_store(store, first) {
            Some(at) => at,
            None => {
                return Err(Error::TooManyFields);
            },
        };
        match A::create(at, data.0) {
            Ok(field) => Ok((field,)),
            Err(cause) => Err(Error::Field { index: first as u8, cause: Box::new(cause) }),
        }
    }

    fn flush_from<B: Write>(self, first: usize, backing: &mut B) -> (r: Result<
        Self::Encoding,
        Error,
    >) {
        if first >= MAX_FIELDS {
            return Err(Error::TooManyFields);
        }
        match self.0.flush(backing) {
            Ok(data) => Ok((data,)),
            Err(cause) => Err(Error::Field { index: first as u8, cause: Box::new(cause) }),
        }
    }
}

/// A field and the fields declared after it.
impl<A: State, R: FieldList> FieldList for (A, R) {
    type Encoding = (A::Encoding, R::Encoding);

    open spec fn count() -> nat {
        1 + R::count()
    }

    open spec fn refusal_from(first: nat) -> Option<Error> {
        if first >= MAX_FIELDS {
            Some(Error::TooManyFields)
        } else {
            match A::refusal() {
                Some(cause) => Some(field_error(first, cause)),
                None => R::refusal_from(first + 1),
            }
        }
    }

    open spec fn bound_from(fields: Self::V, path: Path, first: nat) -> bool {
        first < MAX_FIELDS && A::bound(fields.0, field_path(path, first)) && R::bound_from(
            fields.1,
            path,
            first + 1,
        )
    }

    open spec fn created_from(path: Path, first: nat, data: <Self::Encoding as View>::V) -> Result<
        Self::V,
        Error,
    > {
        if first >= MAX_FIELDS {
            Err(Error::TooManyFields)
        } else {
            match A::created(field_path(path, first), data.0) {
                Ok(field) => match R::created_from(path, first + 1, data.1) {
                    Ok(rest) => Ok((field, rest)),
                    Err(error) => Err(error),
                },
                Err(cause) => Err(field_error(first, cause)),
            }
        }
    }

    open spec fn encoded(fields: Self::V) -> <Self::Encoding as View>::V {
        (A::encoded(fields.0), R::encoded(fields.1))
    }

    open spec fn flushed(fields: Self::V, contents: Contents) -> Contents {
        R::flushed(fields.1, A::flushed(fields.0, contents))
    }

    open spec fn interrupted_from(
        fields: Self::V,
        first: nat,
        contents: Contents,
        error: Error,
    ) -> Contents {
        if first >= MAX_FIELDS {
            contents
        } else {
            match error {
                Error::Field { index, cause } if index == first => A::interrupted(
                    fields.0,
                    contents,
                    *cause,
                ),
                _ => R::interrupted_from(fields.1, first + 1, A::flushed(fields.0, contents), error),
            }
        }
    }

    proof fn lemma_created_is_bound(path: Path, first: nat, data: <Self::Encoding as View>::V) {
        A::lemma_created_is_bound(field_path(path, first), data.0);
        R::lemma_created_is_bound(path, first + 1, data.1);
    }

    proof fn lemma_bound_is_not_refused(fields: Self::V, path: Path, first: nat) {
        A::lemma_bound_is_not_refused(fields.0, field_path(path, first));
        R::lemma_bound_is_not_refused(fields.1, path, first + 1);
    }

    proof fn lemma_round_trip(fields: Self::V, path: Path, first: nat) {
        A::lemma_round_trip(fields.0, field_path(path, first));
        R::lemma_round_trip(fields.1, path, first + 1);
    }

    proof fn lemma_flush_is_confined(
        fields: Self::V,
        path: Path,
        first: nat,
        contents: Contents,
        key: Seq<u8>,
    ) {
        assert(!field_path(path, first).is_prefix_of(key));
        assert(beside_fields(path, first + 1, R::count(), key));
        A::lemma_flush_is_confined(fields.0, field_path(path, first), contents, key);
        R::lemma_flush_is_confined(fields.1, path, first + 1, A::flushed(fields.0, contents), key);
    }

    fn create_from(store: &Store, first: usize, data: Self::Encoding) -> (r: Result<Self, Error>) {
        let at = match field_store(store, first) {
            Some(at) => at,
            None => {
                return Err(Error::TooManyFields);
            },
        };
        let field = match A::create(at, data.0) {
            Ok(field) => field,
            Err(cause) => {
                return Err(Error::Field { index: first as u8, cause: Box::new(cause) });
            },
        };
        match R::create_from(store, first + 1, data.1) {
            Ok(rest) => Ok((field, rest)),
            Err(error) => Err(error),
        }
    }

    fn flush_from<B: Write>(self, first: usize, backing: &mut B) -> (r: Result<
        Self::Encoding,
        Error,
    >) {
        if first >= MAX_FIELDS {
            return Err(Error::TooManyFields);
        }
        let head = match self.0.flush(backing) {
            Ok(data) => data,
            Err(cause) => {
                return Err(Error::Field { index: first as u8, cause: Box::new(cause) });
            },
        };
        match self.1.flush_from(first + 1, backing) {
            Ok(rest) => Ok((head, rest)),
            Err(error) => Err(error),
        }
    }
}

/// A compound value: the fields `F`, declared from position 0 on.
#[derive(Debug)]
pub struct Record<F>(pub F);

impl<F: FieldList> View for Record<F> {
    type V = F::V;

    open spec fn view(&self) -> F::V {
        self.0@
    }
}

impl<F: FieldList> State for Record<F> {
    type Encoding = F::Encoding;

    open spec fn refusal() -> Option<Error> {
        F::refusal_from(0)
    }

    open spec fn bound(value: Self::V, path: Path) -> bool {
        F::bound_from(value, path, 0)
    }

    open spec fn created(path: Path, data: <Self::Encoding as View>::V) -> Result<Self::V, Error> {
        F::created_from(path, 0, data)
    }

    open spec fn encoded(value: Self::V) -> <Self::Encoding as View>::V {
        F::encoded(value)
    }

    open spec fn flushed(value: Self::V, contents: Contents) -> Contents {
        F::flushed(value, contents)
    }

    open spec fn interrupted(value: Self::V, contents: Contents, error: Error) -> Contents {
        F::interrupted_from(value, 0, contents, error)
    }

    proof fn lemma_created_is_bound(path: Path, data: <Self::Encoding as View>::V) {
        F::lemma_created_is_bound(path, 0, data);
    }

    proof fn lemma_bound_is_not_refused(value: Self::V, path: Path) {
        F::lemma_bound_is_not_refused(value, path, 0);
    }

    proof fn lemma_round_trip(value: Self::V, path: Path) {
        F::lemma_round_trip(value, path, 0);
    }

    proof fn lemma_flush_is_confined(
        value: Self::V,
        path: Path,
        contents: Contents,
        key: Seq<u8>,
    ) {
        assert forall|position: nat| !(#[trigger] field_path(path, position)).is_prefix_of(key) by {
            lemma_field_path_extends(path, position, key);
        }
        F::lemma_flush_is_confined(value, path, 0, contents, key);
    }

    fn create(store: Store, data: Self::Encoding) -> (r: Result<Self, Error>) {
        match F::create_from(&store, 0, data) {
            Ok(fields) => Ok(Record(fields)),
            Err(error) => Err(error),
        }
    }

    fn flush<B: Write>(self, backing: &mut B) -> (r: Result<Self::Encoding, Error>)
        ensures
            r matches Err(error) ==> error is TooManyFields || error is Field,
            r matches Err(Error::TooManyFields) ==> Self::refusal() == Some(Error::TooManyFields)
                && F::count() > MAX_FIELDS && final(backing)@ == Self::interrupted(
                self@,
                old(backing)@,
                Error::TooManyFields,
            ),
    {
        self.0.flush_from(0, backing)
    }
}

/// A record that is flushed and created again is the record it was, and the
/// flush has left every key alone that lies beside the paths of the record's
/// fields, whatever the store held.
pub proof fn lemma_round_trip_beside_other_keys<F: FieldList>(
    value: F::V,
    path: Path,
    contents: Contents,
    key: Seq<u8>,
)
    requires
        Record::<F>::bound(value, path),
        beside_fields(path, 0, F::count(), key),
    ensures
        Record::<F>::created(path, Record::<F>::encoded(value)) == Ok::<F::V, Error>(value),
        lookup(Record::<F>::flushed(value, contents), key) == lookup(contents, key),
{
    F::lemma_round_trip(value, path, 0);
    F::lemma_flush_is_confined(value, path, 0, contents, key);
}

/// Fields declared at different positions live under paths that lie apart:
/// what is written for one of them is not seen through the other.
pub proof fn lemma_positions_apart(path: Path, i: nat, j: nat)
    requires
        i != j,
        i < MAX_FIELDS,
        j < MAX_FIELDS,
    ensures
        apart(field_path(path, i), field_path(path, j)),
{
    let p = field_path(path, i);
    let q = field_path(path, j);
    assert(p[path.len() as int] == i as u8);
    assert(q[path.len() as int] == j as u8);
}

/// Flushing the field at one position changes nothing of what the view at
/// another position shows.
pub proof fn lemma_fields_do_not_interfere<A: State>(
    value: A::V,
    path: Path,
    i: nat,
    j: nat,
    contents: Contents,
)
    requires
        i != j,
        i < MAX_FIELDS,
        j < MAX_FIELDS,
        A::bound(value, field_path(path, i)),
    ensures
        within(A::flushed(value, contents), field_path(path, j)) == within(
            contents,
            field_path(path, j),
        ),
{
    let p = field_path(path, i);
    let q = field_path(path, j);
    let after = A::flushed(value, contents);
    lemma_positions_apart(path, i, j);
    assert forall|key: Seq<u8>| #[trigger] lookup(after, q + key) == lookup(contents, q + key) by {
        lemma_apart_is_no_prefix(p, q, key);
        A::lemma_flush_is_confined(value, p, contents, q + key);
    }
    assert forall|key: Seq<u8>| #[trigger]
        within(after, q).dom().contains(key) == within(contents, q).dom().contains(key) by {
        assert(lookup(after, q + key) == lookup(contents, q + key));
    }
    assert forall|key: Seq<u8>| within(after, q).dom().contains(key) implies #[trigger] within(
        after,
        q,
    )[key] == within(contents, q)[key] by {
        assert(lookup(after, q + key) == lookup(contents, q + key));
    }
}

/// The record of the two primitives `a` and `b`, declared in this order, at
/// `path`.
pub open spec fn pair_at<P, Q>(path: Path, a: P, b: Q) -> (LeafView<P>, (LeafView<Q>,)) {
    (
        LeafView { path: field_path(path, 0), value: a },
        (LeafView { path: field_path(path, 1), value: b },),
    )
}

/// A flush that fails at the second of two primitives leaves the bytes of the
/// first where they belong, if a failed write changes nothing; one that
/// fails at the first leaves the store as it was.
pub proof fn lemma_failure_keeps_earlier_fields<P: Primitive, Q: Primitive>(
    path: Path,
    a: P,
    b: Q,
    contents: Contents,
    cause: Error,
)
    ensures
        Record::<(Leaf<P>, (Leaf<Q>,))>::interrupted(
            pair_at(path, a, b),
            contents,
            field_error(1, cause),
        ) == contents.insert(path + seq![0u8], a.encoded()),
        Record::<(Leaf<P>, (Leaf<Q>,))>::interrupted(
            pair_at(path, a, b),
            contents,
            field_error(0, cause),
        ) == contents,
{
}

/// The wiring of a declaration and the layout of a record agree: the segment
/// that the wiring gives the field at a position is the one under which a
/// record creates and flushes the field at that position.
pub proof fn lemma_wiring_is_the_layout(item: Item, path: Path, position: nat)
    requires
        item.supported(),
        position < item.declared().len(),
    ensures
        field_path(path, position) == path + field_segment(
            wired_fields(item)[position as int].index,
        ),
{
}

/// Addressing goes by position. Flushing a record of two primitives writes the
/// bytes of the first declared under the segment `[0]` and those of the
/// second under `[1]`, and nothing else; declared the other way round, each
/// value lands where the other one did.
pub proof fn lemma_two_fields_land_by_position<P: Primitive, Q: Primitive>(
    path: Path,
    a: P,
    b: Q,
    contents: Contents,
)
    ensures
        Record::<(Leaf<P>, (Leaf<Q>,))>::created(path, (a.encoded(), (b.encoded(),))) == Ok::<
            (LeafView<P>, (LeafView<Q>,)),
            Error,
        >(pair_at(path, a, b)),
        Record::<(Leaf<P>, (Leaf<Q>,))>::flushed(pair_at(path, a, b), contents) == contents.insert(
            path + seq![0u8],
            a.encoded(),
        ).insert(path + seq![1u8], b.encoded()),
        Record::<(Leaf<Q>, (Leaf<P>,))>::flushed(pair_at(path, b, a), contents) == contents.insert(
            path + seq![0u8],
            b.encoded(),
        ).insert(path + seq![1u8], a.encoded()),
        path + seq![0u8] != path + seq![1u8],
{
    P::lemma_decode_encode(a);
    Q::lemma_decode_encode(b);
    lemma_positions_apart(path, 0, 1);
}

} // verus!
