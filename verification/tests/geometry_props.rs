use sweepline::ccw::{ccw, ccw_value, crossing_point, Ccw, CcwCombination};
use sweepline::line::Line;
use sweepline::line_with_ord::LineWithOrd;
use sweepline::point::Point;
use sweepline::rat::Rat;

#[test]
fn orientation_exact_values() {
    let p = Point { x: 0, y: 0 };
    let q = Point { x: 1, y: 0 };
    let r = Point { x: 0, y: 1 };
    assert_eq!(ccw_value(&p, &q, &r), 1);
    assert_eq!(ccw(&p, &q, &r), 1);
    assert_eq!(ccw(&p, &r, &q), -1);
    let s = Point { x: 2, y: 0 };
    assert_eq!(ccw(&p, &q, &s), 0);
    assert_eq!(ccw_value(&Point { x: 3, y: 1 }, &Point { x: 5, y: 4 }, &Point { x: -2, y: 2 }), 17);
}

// The orientation predicate is a pure function: re-evaluating it on the
// same points always yields the same answer.
#[test]
fn orientation_idempotent() {
    let p = Point { x: -3, y: 7 };
    let q = Point { x: 11, y: -2 };
    let r = Point { x: 5, y: 5 };
    let first = ccw(&p, &q, &r);
    for _ in 0..10 {
        assert_eq!(ccw(&p, &q, &r), first);
    }
}

// Crossing is symmetric in its two segments.
#[test]
fn crossing_symmetric() {
    let samples = [
        (Point { x: 0, y: 0 }, Point { x: 5, y: 5 }, Point { x: 0, y: 5 }, Point { x: 5, y: 0 }),
        (Point { x: 0, y: 0 }, Point { x: 5, y: 5 }, Point { x: 6, y: 0 }, Point { x: 9, y: 1 }),
        (Point { x: 0, y: 0 }, Point { x: 4, y: 0 }, Point { x: 2, y: 0 }, Point { x: 7, y: 0 }),
        (Point { x: 1, y: 1 }, Point { x: 1, y: 1 }, Point { x: 1, y: 1 }, Point { x: 4, y: 4 }),
    ];
    for (a1, a2, b1, b2) in samples {
        let a = Line::new(a1, a2);
        let b = Line::new(b1, b2);
        assert_eq!(a.crosses(&b), b.crosses(&a));
    }
}

// A point-segment crosses an identical point-segment and misses a disjoint
// one.
#[test]
fn point_segment_crossing() {
    let p = Line::new(Point { x: 3, y: 4 }, Point { x: 3, y: 4 });
    let same = Line::new(Point { x: 3, y: 4 }, Point { x: 3, y: 4 });
    let other = Line::new(Point { x: 4, y: 4 }, Point { x: 4, y: 4 });
    assert!(p.crosses(&same));
    assert!(!p.crosses(&other));
}

// Collinear segments cross exactly when their ranges along the shared line
// overlap; the half-unit coordinates sit on the grid after scaling by two.
#[test]
fn collinear_overlap_examples() {
    let base = Line::new(Point { x: 0, y: 0 }, Point { x: 0, y: 2 });
    let overlapping = Line::new(Point { x: 0, y: 1 }, Point { x: 0, y: 3 });
    let disjoint = Line::new(Point { x: 0, y: 3 }, Point { x: 0, y: 4 });
    assert!(base.crosses(&overlapping));
    assert!(!base.crosses(&disjoint));
    let touching = Line::new(Point { x: 0, y: 2 }, Point { x: 0, y: 4 });
    assert!(base.crosses(&touching));
}

// A vertical and a horizontal segment crossing through their interiors.
#[test]
fn perpendicular_crossing() {
    let v = Line::new(Point { x: 0, y: 0 }, Point { x: 0, y: 1 });
    let h = Line::new(Point { x: -1, y: 0 }, Point { x: 1, y: 0 });
    assert!(v.crosses(&h));
    assert!(h.crosses(&v));
}

// Segments with disjoint bounding boxes never cross.
#[test]
fn disjoint_bounding_boxes() {
    let a = Line::new(Point { x: 0, y: 0 }, Point { x: 0, y: 1 });
    let b = Line::new(Point { x: 1, y: 0 }, Point { x: 1, y: 1 });
    assert!(!a.crosses(&b));
    let c = Line::new(Point { x: 10, y: 10 }, Point { x: 12, y: 14 });
    let d = Line::new(Point { x: 13, y: 10 }, Point { x: 20, y: 14 });
    assert!(!c.crosses(&d));
}

#[test]
fn boundary_membership() {
    let l = Line::new(Point { x: 0, y: 0 }, Point { x: 2, y: 3 });
    assert!(Point { x: 1, y: 1 }.is_in_boundary(&l));
    assert!(Point { x: 0, y: 0 }.is_in_boundary(&l));
    assert!(Point { x: 2, y: 3 }.is_in_boundary(&l));
    assert!(!Point { x: 3, y: 1 }.is_in_boundary(&l));
    assert!(!Point { x: 1, y: 4 }.is_in_boundary(&l));
}

#[test]
fn derived_normal_and_offset() {
    let l = Line::new(Point { x: 1, y: 1 }, Point { x: 3, y: 1 });
    assert_eq!(l.n, Point { x: 0, y: 2 });
    assert_eq!(l.a, 2);
    // flipped so that the offset is non-negative
    let m = Line::new(Point { x: 3, y: 1 }, Point { x: 1, y: 1 });
    assert_eq!(m.n, Point { x: 0, y: 2 });
    assert_eq!(m.a, 2);
    assert_eq!(l.point_distance(Point { x: 2, y: 4 }), 6);
    assert_eq!(l.point_distance(Point { x: 2, y: -2 }), -6);
    assert_eq!(l.point_distance(Point { x: 7, y: 1 }), 0);
}

#[test]
fn crossing_point_exact() {
    let p = crossing_point(
        &Point { x: 0, y: 0 },
        &Point { x: 2, y: 2 },
        &Point { x: 0, y: 2 },
        &Point { x: 2, y: 0 },
    )
    .unwrap();
    assert_eq!(p.x.num, 8);
    assert_eq!(p.x.den, 8);
    assert_eq!(p.y.num, 8);
    assert_eq!(p.y.den, 8);

    // a point-segment short-circuits to that point
    let q = crossing_point(
        &Point { x: 1, y: 1 },
        &Point { x: 1, y: 1 },
        &Point { x: 0, y: 0 },
        &Point { x: 2, y: 2 },
    )
    .unwrap();
    assert_eq!((q.x.num, q.x.den), (1, 1));
    assert_eq!((q.y.num, q.y.den), (1, 1));

    // collinear segments have no single crossing point
    assert!(crossing_point(
        &Point { x: 0, y: 0 },
        &Point { x: 2, y: 0 },
        &Point { x: 5, y: 0 },
        &Point { x: 9, y: 0 },
    )
    .is_none());
}

#[test]
fn minimize_exact() {
    let combo = CcwCombination {
        ccw1: Ccw::Right,
        ccw2: Ccw::Left,
        ccw3: Ccw::Middle,
        ccw4: Ccw::Right,
    };
    let expected = CcwCombination {
        ccw1: Ccw::Left,
        ccw2: Ccw::Middle,
        ccw3: Ccw::Left,
        ccw4: Ccw::Right,
    };
    assert_eq!(combo.minimize(), expected);
    // a canonical form stays put
    assert_eq!(expected.minimize(), expected);
}

#[test]
fn ccw_from_sign() {
    assert_eq!(Ccw::from(-1), Ccw::Left);
    assert_eq!(Ccw::from(0), Ccw::Middle);
    assert_eq!(Ccw::from(1), Ccw::Right);
    assert_eq!(Ccw::from(-7), Ccw::Left);
    assert_eq!(Ccw::from(9), Ccw::Right);
}

#[test]
fn y_at_exact() {
    let l = Line::new(Point { x: 0, y: 0 }, Point { x: 4, y: 2 });
    let entry = LineWithOrd::new(l, Rat::from_i64(1));
    let y = entry.y_at();
    assert_eq!((y.num, y.den), (2, 4));
    // a vertical segment falls back to its first endpoint's ordinate
    let v = Line::new(Point { x: 3, y: 5 }, Point { x: 3, y: 9 });
    let ventry = LineWithOrd::new(v, Rat::from_i64(3));
    let vy = ventry.y_at();
    assert_eq!((vy.num, vy.den), (5, 1));
}
