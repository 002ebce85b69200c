use roguelike::bound::{Bound, Contains, Point};
use roguelike::map::{Rect, Tile};

#[test]
fn offset_adds_coordinates() {
    let p = Point { col: 3, row: -2 };
    let d = Point { col: -5, row: 7 };
    assert_eq!(p.offset(&d), Point { col: -2, row: 5 });
}

#[test]
fn offset_by_zero_is_identity() {
    let p = Point { col: 11, row: 4 };
    assert_eq!(p.offset(&Point { col: 0, row: 0 }), p);
}

#[test]
fn offset_composes() {
    let p = Point { col: 1, row: 2 };
    let d = Point { col: 3, row: 4 };
    let e = Point { col: -6, row: 10 };
    let once = p.offset(&Point { col: d.col + e.col, row: d.row + e.row });
    assert_eq!(p.offset(&d).offset(&e), once);
}

#[test]
fn contains_each_side() {
    let b = Bound { min: Point { col: 0, row: 0 }, max: Point { col: 10, row: 5 } };
    assert_eq!(b.contains(Point { col: 3, row: 3 }), Contains::DoesContain);
    assert_eq!(b.contains(Point { col: 0, row: 0 }), Contains::DoesContain);
    assert_eq!(b.contains(Point { col: 10, row: 5 }), Contains::DoesContain);
    assert_eq!(b.contains(Point { col: -1, row: 3 }), Contains::DoesNotContain);
    assert_eq!(b.contains(Point { col: 11, row: 3 }), Contains::DoesNotContain);
    assert_eq!(b.contains(Point { col: 3, row: -1 }), Contains::DoesNotContain);
    assert_eq!(b.contains(Point { col: 3, row: 6 }), Contains::DoesNotContain);
}

#[test]
fn contains_is_kept_under_shift() {
    let b = Bound { min: Point { col: 2, row: 2 }, max: Point { col: 4, row: 4 } };
    let d = Point { col: 7, row: -3 };
    let moved = Bound { min: b.min.offset(&d), max: b.max.offset(&d) };
    for col in 0..8 {
        for row in 0..8 {
            let p = Point { col, row };
            assert_eq!(b.contains(p), moved.contains(p.offset(&d)));
        }
    }
}

#[test]
fn rect_new_and_center() {
    let r = Rect::new(10, 20, 7, 4);
    assert_eq!(r, Rect { x1: 10, y1: 20, x2: 17, y2: 24 });
    assert_eq!(r.center(), (13, 22));
}

#[test]
fn rect_center_rounds_toward_zero() {
    let r = Rect::new(-5, -3, 2, 2);
    assert_eq!(r.center(), (-4, -2));
    let r = Rect::new(-4, -4, 1, 1);
    assert_eq!(r.center(), (-3, -3));
}

#[test]
fn rects_touching_at_an_edge_intersect() {
    let a = Rect::new(0, 0, 5, 5);
    let b = Rect::new(5, 0, 5, 5);
    let c = Rect::new(6, 0, 5, 5);
    assert!(a.intersects_with(&b));
    assert!(b.intersects_with(&a));
    assert!(!a.intersects_with(&c));
    assert!(!c.intersects_with(&a));
    assert!(a.intersects_with(&a));
}

#[test]
fn tile_kinds() {
    assert_eq!(Tile::empty(), Tile { blocked: false, block_sight: false, explored: false });
    assert_eq!(Tile::wall(), Tile { blocked: true, block_sight: true, explored: false });
}
