use orga::state::{Leaf, Primitive, Record, State, View};
use orga::store::{Contents, MapStore, Path, Read, Store, Write};
use orga::Error;

/// A record with named fields, wired by hand the way the wiring of its
/// declaration says: `x` at position 0, `y` at position 1.
#[derive(Debug)]
struct Point {
    x: Leaf<u32>,
    y: Leaf<u32>,
}

type PointFields = (Leaf<u32>, (Leaf<u32>,));

impl View for Point {
    type V = <Record<PointFields> as View>::V;

    fn view(&self) -> Self::V {
        (self.x.view(), (self.y.view(),))
    }
}

impl State for Point {
    type Encoding = <Record<PointFields> as State>::Encoding;

    fn refusal() -> Option<Error> {
        <Record<PointFields> as State>::refusal()
    }

    fn bound(value: Self::V, path: Path) -> bool {
        <Record<PointFields> as State>::bound(value, path)
    }

    fn created(path: Path, data: <Self::Encoding as View>::V) -> Result<Self::V, Error> {
        <Record<PointFields> as State>::created(path, data)
    }

    fn encoded(value: Self::V) -> <Self::Encoding as View>::V {
        <Record<PointFields> as State>::encoded(value)
    }

    fn flushed(value: Self::V, contents: Contents) -> Contents {
        <Record<PointFields> as State>::flushed(value, contents)
    }

    fn interrupted(value: Self::V, contents: Contents, error: Error) -> Contents {
        <Record<PointFields> as State>::interrupted(value, contents, error)
    }

    fn lemma_created_is_bound(path: Path, data: <Self::Encoding as View>::V) {
        <Record<PointFields> as State>::lemma_created_is_bound(path, data)
    }

    fn lemma_bound_is_not_refused(value: Self::V, path: Path) {
        <Record<PointFields> as State>::lemma_bound_is_not_refused(value, path)
    }

    fn lemma_round_trip(value: Self::V, path: Path) {
        <Record<PointFields> as State>::lemma_round_trip(value, path)
    }

    fn lemma_flush_is_confined(value: Self::V, path: Path, contents: Contents, key: Path) {
        <Record<PointFields> as State>::lemma_flush_is_confined(value, path, contents, key)
    }

    fn create(store: Store, data: Self::Encoding) -> Result<Self, Error> {
        let Record((x, (y,))) = <Record<PointFields> as State>::create(store, data)?;
        Ok(Point { x, y })
    }

    fn flush<B: Write>(self, backing: &mut B) -> Result<Self::Encoding, Error> {
        Record((self.x, (self.y,))).flush(backing)
    }
}

#[test]
fn a_struct_of_two_numbers_over_an_empty_store() {
    let mut backing = MapStore::new();
    let point = Point::create(Store::new(), (4u32.encode(), (7u32.encode(),))).unwrap();
    assert_eq!(*point.x.get(), 4);
    assert_eq!(*point.y.get(), 7);
    let encoding = point.flush(&mut backing).unwrap();
    assert_eq!(encoding, (vec![0, 0, 0, 4], (vec![0, 0, 0, 7],)));
    assert_eq!(backing.get(&[0]).unwrap(), Some(vec![0, 0, 0, 4]));
    assert_eq!(backing.get(&[1]).unwrap(), Some(vec![0, 0, 0, 7]));
    let point = Point::create(Store::new(), encoding).unwrap();
    assert_eq!(*point.x.get(), 4);
    assert_eq!(*point.y.get(), 7);
}

#[test]
fn a_wired_struct_is_a_field_like_any_other() {
    let mut backing = MapStore::new();
    type Line = Record<(Point, (Point,))>;
    let encoding = (
        (1u32.encode(), (2u32.encode(),)),
        ((3u32.encode(), (4u32.encode(),)),),
    );
    let line = Line::create(Store::new().sub(&[9]), encoding).unwrap();
    assert_eq!(line.0 .1 .0.x.store().path(), &[9, 1, 0]);
    line.flush(&mut backing).unwrap();
    assert_eq!(backing.get(&[9, 0, 0]).unwrap(), Some(vec![0, 0, 0, 1]));
    assert_eq!(backing.get(&[9, 0, 1]).unwrap(), Some(vec![0, 0, 0, 2]));
    assert_eq!(backing.get(&[9, 1, 0]).unwrap(), Some(vec![0, 0, 0, 3]));
    assert_eq!(backing.get(&[9, 1, 1]).unwrap(), Some(vec![0, 0, 0, 4]));
}
