//! The wiring of a compound record: which path segment, which component of the
//! encoding tuple and which accessor belong to each declared field.
//!
//! Addressing is purely positional. The field declared at position `i` lives in
//! the sub-store reached by the single-byte segment `[i]` and takes component
//! `i` of the record's encoding, whatever the field is called.

use vstd::prelude::*;

verus! {

/// The largest number of fields a record can declare: a position has to fit
/// in the one byte of its path segment.
pub const MAX_FIELDS: usize = 256;

/// One declared field of a struct.
#[derive(Debug)]
pub struct Field {
    /// The field's name; `None` in a tuple struct.
    pub ident: Option<String>,
    /// The field's type, as written in the declaration.
    pub ty: String,
}

/// The fields of a struct, in declaration order.
#[derive(Debug)]
pub enum Fields {
    /// `struct S { a: A, b: B }`
    Named(Vec<Field>),
    /// `struct S(A, B);`
    Unnamed(Vec<Field>),
    /// `struct S;`
    Unit,
}

/// What kind of type a declaration introduces.
#[derive(Debug)]
pub enum Data {
    Struct(Fields),
    Enum,
    Union,
}

/// A type declaration handed to [`derive`].
#[derive(Debug)]
pub struct Item {
    /// The declared type's name.
    pub ident: String,
    pub data: Data,
}

/// Why a declaration cannot be wired.
#[derive(Debug, Clone, Copy, PartialEq, Eq, Structural)]
pub enum Unsupported {
    /// Sum types have no positional layout.
    Enum,
    /// Neither have unions.
    Union,
    /// A record without fields carries no addressable state.
    Unit,
    /// More fields than one-byte path segments.
    TooManyFields,
}

/// The wiring of one field.
#[derive(Debug)]
pub struct FieldWiring {
    /// The accessor by name; `None` where the field is reached by `index`.
    pub ident: Option<String>,
    /// The type whose encoding becomes component `index` of the record's
    /// encoding.
    pub ty: String,
    /// The declaration position: the component of the encoding tuple, and the
    /// byte of the path segment.
    pub index: u8,
}

/// The wiring of a whole record: everything the generated `create` and `flush`
/// depend on.
#[derive(Debug)]
pub struct Wiring {
    /// The type the wiring is for.
    pub ident: String,
    /// Whether the record is built and read by position (`Self(..)`, `self.0`)
    /// rather than by name.
    pub tuple: bool,
    /// One entry per declared field, in declaration order.
    pub fields: Vec<FieldWiring>,
}

/// The path segment of the field declared at position `index`.
pub open spec fn field_segment(index: u8) -> Seq<u8> {
    seq![index]
}

impl Fields {
    /// The declared fields, in order; none for a unit struct.
    pub open spec fn declared(self) -> Seq<Field> {
        match self {
            Fields::Named(fields) => fields@,
            Fields::Unnamed(fields) => fields@,
            Fields::Unit => Seq::empty(),
        }
    }
}

impl Item {
    /// The declared fields of a struct, in order; none for any other item.
    pub open spec fn declared(self) -> Seq<Field> {
        match self.data {
            Data::Struct(fields) => fields.declared(),
            _ => Seq::empty(),
        }
    }

    /// Whether the item is a struct that lists its fields, by name or by
    /// position, however many they are.
    pub open spec fn lists_fields(self) -> bool {
        self.data matches Data::Struct(fields) && fields !is Unit
    }

    /// Whether the item is a tuple struct.
    pub open spec fn is_tuple_struct(self) -> bool {
        self.data matches Data::Struct(Fields::Unnamed(_))
    }

    /// The reason, if any, for which the item cannot be wired.
    pub open spec fn rejection(self) -> Option<Unsupported> {
        match self.data {
            Data::Enum => Some(Unsupported::Enum),
            Data::Union => Some(Unsupported::Union),
            Data::Struct(fields) => if fields.declared().len() == 0 {
                Some(Unsupported::Unit)
            } else if fields.declared().len() > MAX_FIELDS {
                Some(Unsupported::TooManyFields)
            } else {
                None
            },
        }
    }

    /// A struct with at least one field, and no more than fit.
    pub open spec fn supported(self) -> bool {
        self.rejection() is None
    }
}

/// The wiring of `field` when it is declared at `position`.
pub open spec fn wired(field: Field, position: int) -> FieldWiring {
    FieldWiring { ident: field.ident, ty: field.ty, index: position as u8 }
}

/// The wiring of every field of `item`, in declaration order.
pub open spec fn wired_fields(item: Item) -> Seq<FieldWiring> {
    Seq::new(item.declared().len(), |i: int| wired(item.declared()[i], i))
}

/// Tells whether `item` can be wired, and if not, why.
pub fn check(item: &Item) -> (r: Result<(), Unsupported>)
    ensures
        r == match item.rejection() {
            Some(reason) => Err::<(), Unsupported>(reason),
            None => Ok(()),
        },
{
    match &item.data {
        Data::Enum => Err(Unsupported::Enum),
        Data::Union => Err(Unsupported::Union),
        Data::Struct(Fields::Unit) => Err(Unsupported::Unit),
        Data::Struct(Fields::Named(fields)) => check_count(fields.len()),
        Data::Struct(Fields::Unnamed(fields)) => check_count(fields.len()),
    }
}

fn check_count(count: usize) -> (r: Result<(), Unsupported>)
    ensures
        r == if count == 0 {
            Err::<(), Unsupported>(Unsupported::Unit)
        } else if count > MAX_FIELDS {
            Err(Unsupported::TooManyFields)
        } else {
            Ok(())
        },
{
    if count == 0 {
        Err(Unsupported::Unit)
    } else if count > MAX_FIELDS {
        Err(Unsupported::TooManyFields)
    } else {
        Ok(())
    }
}

/// The fields of a struct that lists them, in declaration order.
pub fn struct_fields(item: &Item) -> (fields: &Vec<Field>)
    requires
        item.lists_fields(),
    ensures
        fields@ == item.declared(),
{
    match &item.data {
        Data::Struct(Fields::Named(fields)) => fields,
        Data::Struct(Fields::Unnamed(fields)) => fields,
        _ => unreached(),
    }
}

fn clone_ident(ident: &Option<String>) -> (copy: Option<String>)
    ensures
        copy == *ident,
{
    match ident {
        Some(name) => Some(name.clone()),
        None => None,
    }
}

/// Wires a record: each field, in declaration order, gets its position as the
/// component of the encoding tuple and as the byte of its path segment.
pub fn derive(item: &Item) -> (wiring: Wiring)
    requires
        item.supported(),
    ensures
        wiring.ident == item.ident,
        wiring.tuple == item.is_tuple_struct(),
        wiring.fields@ == wired_fields(*item),
{
    let is_tuple_struct = match &item.data {
        Data::Struct(Fields::Unnamed(_)) => true,
        _ => false,
    };
    let declared = struct_fields(item);
    let mut fields: Vec<FieldWiring> = Vec::new();
    let mut position: usize = 0;
    while position < declared.len()
        invariant
            position <= declared.len() <= MAX_FIELDS,
            declared@ == item.declared(),
            fields@.len() == position,
            forall|i: int| 0 <= i < position ==> fields@[i] == wired(declared@[i], i),
        decreases declared.len() - position,
    {
        let field = &declared[position];
        fields.push(
            FieldWiring {
                ident: clone_ident(&field.ident),
                ty: field.ty.clone(),
                index: position as u8,
            },
        );
        position += 1;
    }
    Wiring { ident: item.ident.clone(), tuple: is_tuple_struct, fields }
}

impl FieldWiring {
    /// The path segment of the sub-store the field is created from.
    pub fn segment(&self) -> (segment: Vec<u8>)
        ensures
            segment@ == field_segment(self.index),
    {
        let mut segment: Vec<u8> = Vec::new();
        segment.push(self.index);
        segment
    }
}

/// The segments of a record's fields are their positions, so no two fields
/// share one.
pub proof fn lemma_segments_are_positions(item: Item, i: int, j: int)
    requires
        item.supported(),
        0 <= i < item.declared().len(),
        0 <= j < item.declared().len(),
    ensures
        field_segment(wired_fields(item)[i].index) == seq![i as u8],
        i != j ==> field_segment(wired_fields(item)[i].index) != field_segment(
            wired_fields(item)[j].index,
        ),
{
    if i != j {
        assert(seq![i as u8][0] != seq![j as u8][0]);
    }
}

/// Addressing goes by position, not by name. Where two declarations differ
/// only in that the fields at positions `i` and `j` have changed places, each
/// of the two fields is wired to the position, and so to the path, that the
/// other one had, and every other field keeps its own.
pub proof fn lemma_reordering_moves_fields(item: Item, reordered: Item, i: int, j: int)
    requires
        0 <= i < item.declared().len(),
        0 <= j < item.declared().len(),
        reordered.declared() == item.declared().update(i, item.declared()[j]).update(
            j,
            item.declared()[i],
        ),
    ensures
        wired_fields(reordered).len() == wired_fields(item).len(),
        wired_fields(reordered)[i] == wired(item.declared()[j], i),
        wired_fields(reordered)[j] == wired(item.declared()[i], j),
        forall|k: int|
            0 <= k < item.declared().len() && k != i && k != j ==> wired_fields(reordered)[k]
                == wired_fields(item)[k],
{
}

} // verus!
