use orga::wiring::{check, struct_fields, Data, Field, Fields, Item, Unsupported};

fn named(name: &str, ty: &str) -> Field {
    Field { ident: Some(name.to_string()), ty: ty.to_string() }
}

fn unnamed(ty: &str) -> Field {
    Field { ident: None, ty: ty.to_string() }
}

fn item(name: &str, data: Data) -> Item {
    Item { ident: name.to_string(), data }
}

#[test]
fn a_named_struct_is_wired_by_position() {
    let point = item(
        "Point",
        Data::Struct(Fields::Named(vec![named("x", "u32"), named("y", "u64")])),
    );
    assert_eq!(check(&point), Ok(()));
    let wiring = orga::wiring::derive(&point);
    assert_eq!(wiring.ident, "Point");
    assert!(!wiring.tuple);
    assert_eq!(wiring.fields.len(), 2);
    assert_eq!(wiring.fields[0].ident.as_deref(), Some("x"));
    assert_eq!(wiring.fields[0].ty, "u32");
    assert_eq!(wiring.fields[0].index, 0);
    assert_eq!(wiring.fields[0].segment(), vec![0]);
    assert_eq!(wiring.fields[1].ident.as_deref(), Some("y"));
    assert_eq!(wiring.fields[1].ty, "u64");
    assert_eq!(wiring.fields[1].index, 1);
    assert_eq!(wiring.fields[1].segment(), vec![1]);
}

#[test]
fn a_tuple_struct_is_wired_by_position() {
    let pair = item("Pair", Data::Struct(Fields::Unnamed(vec![unnamed("A"), unnamed("B"), unnamed("C")])));
    assert_eq!(check(&pair), Ok(()));
    let wiring = orga::wiring::derive(&pair);
    assert_eq!(wiring.ident, "Pair");
    assert!(wiring.tuple);
    assert_eq!(wiring.fields.len(), 3);
    assert_eq!(wiring.fields[2].ident, None);
    assert_eq!(wiring.fields[2].ty, "C");
    assert_eq!(wiring.fields[2].index, 2);
    assert_eq!(wiring.fields[2].segment(), vec![2]);
}

#[test]
fn reordering_the_declarations_moves_the_fields() {
    let before = orga::wiring::derive(&item(
        "S",
        Data::Struct(Fields::Named(vec![named("a", "A"), named("b", "B")])),
    ));
    let after = orga::wiring::derive(&item(
        "S",
        Data::Struct(Fields::Named(vec![named("b", "B"), named("a", "A")])),
    ));
    assert_eq!(before.fields[0].ident.as_deref(), Some("a"));
    assert_eq!(before.fields[1].ident.as_deref(), Some("b"));
    assert_eq!(after.fields[0].ident.as_deref(), Some("b"));
    assert_eq!(after.fields[0].segment(), vec![0]);
    assert_eq!(after.fields[1].ident.as_deref(), Some("a"));
    assert_eq!(after.fields[1].segment(), vec![1]);
}

#[test]
fn struct_fields_lists_the_declarations_in_order() {
    let s = item(
        "S",
        Data::Struct(Fields::Named(vec![named("a", "A"), named("b", "B"), named("c", "C")])),
    );
    let fields = struct_fields(&s);
    assert_eq!(fields.len(), 3);
    assert_eq!(fields[0].ident.as_deref(), Some("a"));
    assert_eq!(fields[1].ty, "B");
    assert_eq!(fields[2].ident.as_deref(), Some("c"));
    let t = item("T", Data::Struct(Fields::Unnamed(vec![unnamed("X")])));
    let fields = struct_fields(&t);
    assert_eq!(fields.len(), 1);
    assert_eq!(fields[0].ident, None);
    assert_eq!(fields[0].ty, "X");
}

#[test]
fn enums_are_rejected() {
    assert_eq!(check(&item("E", Data::Enum)), Err(Unsupported::Enum));
}

#[test]
fn unions_are_rejected() {
    assert_eq!(check(&item("U", Data::Union)), Err(Unsupported::Union));
}

#[test]
fn records_without_fields_are_rejected() {
    assert_eq!(check(&item("A", Data::Struct(Fields::Unit))), Err(Unsupported::Unit));
    assert_eq!(check(&item("B", Data::Struct(Fields::Named(vec![])))), Err(Unsupported::Unit));
    assert_eq!(check(&item("C", Data::Struct(Fields::Unnamed(vec![])))), Err(Unsupported::Unit));
}

#[test]
fn the_last_position_is_255() {
    let mut fields = Vec::new();
    for _ in 0..256 {
        fields.push(unnamed("u8"));
    }
    let full = item("Full", Data::Struct(Fields::Unnamed(fields)));
    assert_eq!(check(&full), Ok(()));
    let wiring = orga::wiring::derive(&full);
    assert_eq!(wiring.fields.len(), 256);
    assert_eq!(wiring.fields[255].index, 255);
    assert_eq!(wiring.fields[255].segment(), vec![255]);
    assert_eq!(wiring.fields[128].index, 128);
}

#[test]
fn more_fields_than_segments_are_rejected() {
    let mut fields = Vec::new();
    for i in 0..257 {
        fields.push(named(&format!("f{}", i), "u8"));
    }
    let over = item("Over", Data::Struct(Fields::Named(fields)));
    assert_eq!(check(&over), Err(Unsupported::TooManyFields));
}

#[test]
fn struct_fields_lists_whatever_a_struct_declares() {
    let empty = item("Empty", Data::Struct(Fields::Named(vec![])));
    assert_eq!(struct_fields(&empty).len(), 0);
    let mut fields = Vec::new();
    for _ in 0..300 {
        fields.push(unnamed("u8"));
    }
    let long = item("Long", Data::Struct(Fields::Unnamed(fields)));
    assert_eq!(struct_fields(&long).len(), 300);
}
