use osrs_method_creator::grid::{Coord, Extents};

fn rect(x0: isize, y0: isize, x1: isize, y1: isize) -> Extents {
    Extents { min: Coord { x: x0, y: y0 }, max: Coord { x: x1, y: y1 } }
}

#[test]
fn extents_contain_their_corners() {
    let e = rect(-2, -1, 3, 4);
    assert!(e.contains(Coord { x: -2, y: -1 }));
    assert!(e.contains(Coord { x: 3, y: 4 }));
    assert!(e.contains(Coord { x: 0, y: 0 }));
    assert!(!e.contains(Coord { x: 4, y: 0 }));
    assert!(!e.contains(Coord { x: 0, y: -2 }));
    assert_eq!(Extents::default(), rect(0, 0, 0, 0));
    assert_eq!(Coord::default(), Coord { x: 0, y: 0 });
}

#[test]
fn union_spans_both_rectangles() {
    let a = rect(-2, -1, 3, 4);
    let b = rect(0, -5, 9, 2);
    assert_eq!(a.union(&b), rect(-2, -5, 9, 4));
    assert_eq!(b.union(&a), rect(-2, -5, 9, 4));
    assert_eq!(a.union(&a), a);
    let inner = rect(0, 0, 1, 1);
    assert_eq!(a.union(&inner), a);
}
