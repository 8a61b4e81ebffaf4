use orga::store::{MapStore, Read, Store, Write};

#[test]
fn get_of_a_missing_key_is_no_error() {
    let store = MapStore::new();
    assert_eq!(store.get(&[1, 2, 3]).unwrap(), None);
    assert_eq!(store.get(&[]).unwrap(), None);
}

#[test]
fn put_then_get_reads_the_value_back() {
    let mut store = MapStore::new();
    store.put(vec![1], vec![10, 11]).unwrap();
    store.put(vec![2], vec![20]).unwrap();
    assert_eq!(store.get(&[1]).unwrap(), Some(vec![10, 11]));
    assert_eq!(store.get(&[2]).unwrap(), Some(vec![20]));
    assert_eq!(store.get(&[1, 0]).unwrap(), None);
}

#[test]
fn put_overwrites_silently() {
    let mut store = MapStore::new();
    store.put(vec![7], vec![1]).unwrap();
    store.put(vec![7], vec![2, 2]).unwrap();
    assert_eq!(store.get(&[7]).unwrap(), Some(vec![2, 2]));
}

#[test]
fn the_empty_key_and_the_empty_value_are_ordinary() {
    let mut store = MapStore::new();
    store.put(vec![], vec![]).unwrap();
    assert_eq!(store.get(&[]).unwrap(), Some(vec![]));
    assert_eq!(store.get(&[0]).unwrap(), None);
}

#[test]
fn delete_removes_only_its_key() {
    let mut store = MapStore::new();
    store.put(vec![1], vec![10]).unwrap();
    store.put(vec![2], vec![20]).unwrap();
    store.put(vec![3], vec![30]).unwrap();
    store.delete(&[2]).unwrap();
    assert_eq!(store.get(&[1]).unwrap(), Some(vec![10]));
    assert_eq!(store.get(&[2]).unwrap(), None);
    assert_eq!(store.get(&[3]).unwrap(), Some(vec![30]));
}

#[test]
fn delete_of_an_absent_key_changes_nothing() {
    let mut store = MapStore::new();
    store.put(vec![1], vec![10]).unwrap();
    store.delete(&[9]).unwrap();
    store.delete(&[9]).unwrap();
    assert_eq!(store.get(&[1]).unwrap(), Some(vec![10]));
    assert_eq!(store.get(&[9]).unwrap(), None);
}

#[test]
fn the_root_view_has_the_empty_path() {
    let root = Store::new();
    assert_eq!(root.path(), &[] as &[u8]);
}

#[test]
fn sub_appends_the_segment_to_the_path() {
    let root = Store::new();
    let first = root.sub(&[0]);
    let nested = first.sub(&[7, 8]);
    assert_eq!(first.path(), &[0]);
    assert_eq!(nested.path(), &[0, 7, 8]);
    assert_eq!(root.path(), &[] as &[u8]);
}

#[test]
fn a_view_prefixes_every_key_with_its_path() {
    let mut backing = MapStore::new();
    let view = Store::new().sub(&[4, 2]);
    view.put(&mut backing, vec![9], vec![1, 2, 3]).unwrap();
    assert_eq!(backing.get(&[4, 2, 9]).unwrap(), Some(vec![1, 2, 3]));
    assert_eq!(backing.get(&[9]).unwrap(), None);
    assert_eq!(view.get(&backing, &[9]).unwrap(), Some(vec![1, 2, 3]));
    view.delete(&mut backing, &[9]).unwrap();
    assert_eq!(backing.get(&[4, 2, 9]).unwrap(), None);
    assert_eq!(view.get(&backing, &[9]).unwrap(), None);
}

#[test]
fn sub_of_sub_is_sub_of_the_joined_path() {
    let mut backing = MapStore::new();
    let root = Store::new();
    let stepwise = root.sub(&[1]).sub(&[2]);
    let direct = root.sub(&[1, 2]);
    assert_eq!(stepwise.path(), direct.path());
    stepwise.put(&mut backing, vec![5], vec![50]).unwrap();
    assert_eq!(direct.get(&backing, &[5]).unwrap(), Some(vec![50]));
    direct.put(&mut backing, vec![6], vec![60]).unwrap();
    assert_eq!(stepwise.get(&backing, &[6]).unwrap(), Some(vec![60]));
}

#[test]
fn views_under_different_segments_do_not_see_each_other() {
    let mut backing = MapStore::new();
    let root = Store::new();
    let left = root.sub(&[0]);
    let right = root.sub(&[1]);
    left.put(&mut backing, vec![9], vec![1]).unwrap();
    assert_eq!(right.get(&backing, &[9]).unwrap(), None);
    right.put(&mut backing, vec![9], vec![2]).unwrap();
    assert_eq!(left.get(&backing, &[9]).unwrap(), Some(vec![1]));
    assert_eq!(right.get(&backing, &[9]).unwrap(), Some(vec![2]));
    right.delete(&mut backing, &[9]).unwrap();
    assert_eq!(left.get(&backing, &[9]).unwrap(), Some(vec![1]));
}

#[test]
fn a_write_through_a_view_leaves_keys_outside_its_path_alone() {
    let mut backing = MapStore::new();
    backing.put(vec![1, 9], vec![7]).unwrap();
    backing.put(vec![], vec![8]).unwrap();
    let view = Store::new().sub(&[0]);
    view.put(&mut backing, vec![9], vec![1]).unwrap();
    view.put(&mut backing, vec![], vec![2]).unwrap();
    assert_eq!(backing.get(&[1, 9]).unwrap(), Some(vec![7]));
    assert_eq!(backing.get(&[]).unwrap(), Some(vec![8]));
    assert_eq!(backing.get(&[0, 9]).unwrap(), Some(vec![1]));
    assert_eq!(backing.get(&[0]).unwrap(), Some(vec![2]));
}

#[test]
fn a_view_under_a_longer_path_is_a_view_into_the_shorter_one() {
    let mut backing = MapStore::new();
    let outer = Store::new().sub(&[0]);
    let inner = Store::new().sub(&[0, 1]);
    inner.put(&mut backing, vec![5], vec![50]).unwrap();
    assert_eq!(outer.get(&backing, &[1, 5]).unwrap(), Some(vec![50]));
    assert_eq!(outer.get(&backing, &[5]).unwrap(), None);
}
