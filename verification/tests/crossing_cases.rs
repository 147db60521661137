use sweepline::line::Line;
use sweepline::point::Point;

#[test]
fn case1() {
    let l1 = Line::new(Point { x: 0, y: 0 }, Point { x: 0, y: 1 });
    let l2 = Line::new(Point { x: 1, y: 0 }, Point { x: 1, y: 1 });
    assert!(!l1.crosses(&l2));
    assert!(!l2.crosses(&l1));
}

#[test]
fn case2() {
    let l1 = Line::new(Point { x: 0, y: 0 }, Point { x: 0, y: 1 });
    let l2 = Line::new(Point { x: 0, y: -1 }, Point { x: 1, y: 1 });
    assert!(!l1.crosses(&l2));
    assert!(!l2.crosses(&l1));
}

#[test]
fn case3() {
    let l1 = Line::new(Point { x: 0, y: 0 }, Point { x: 0, y: 1 });
    let l2 = Line::new(Point { x: -1, y: -1 }, Point { x: 1, y: -1 });
    assert!(!l1.crosses(&l2));
    assert!(!l2.crosses(&l1));
}

#[test]
fn case4() {
    let l1 = Line::new(Point { x: 0, y: 0 }, Point { x: 0, y: 1 });
    let l2 = Line::new(Point { x: 1, y: 1 }, Point { x: 1, y: 1 });
    assert!(!l1.crosses(&l2));
    assert!(!l2.crosses(&l1));
}

#[test]
fn case5() {
    let l1 = Line::new(Point { x: 0, y: 0 }, Point { x: 0, y: 1 });
    let l2 = Line::new(Point { x: 0, y: 0 }, Point { x: 1, y: 1 });
    assert!(l1.crosses(&l2));
    assert!(l2.crosses(&l1));
}

#[test]
fn case6() {
    let l1 = Line::new(Point { x: 0, y: 0 }, Point { x: 0, y: 1 });
    let l2 = Line::new(Point { x: -1, y: 0 }, Point { x: 1, y: 0 });
    assert!(l1.crosses(&l2));
    assert!(l2.crosses(&l1));
}

#[test]
fn case8() {
    let l1 = Line::new(Point { x: 0, y: 0 }, Point { x: 0, y: 1 });
    let l2 = Line::new(Point { x: -1, y: 0 }, Point { x: 1, y: 1 });
    assert!(l1.crosses(&l2));
    assert!(l2.crosses(&l1));
}

// The quarter-unit coordinates of this case sit on the integer grid after a
// uniform scaling by four, which changes no orientation or bounding-box
// decision.
#[test]
fn case10() {
    // 2 point-segments
    let l1 = Line::new(Point { x: 0, y: 0 }, Point { x: 0, y: 0 });
    let l2 = Line::new(Point { x: 0, y: -4 }, Point { x: 0, y: -4 });
    assert!(!l1.crosses(&l2));
    assert!(!l2.crosses(&l1));
    let l1 = Line::new(Point { x: 0, y: 0 }, Point { x: 0, y: 0 });
    let l2 = Line::new(Point { x: 0, y: 0 }, Point { x: 0, y: 0 });
    assert!(l1.crosses(&l2));
    assert!(l2.crosses(&l1));
    let l1 = Line::new(Point { x: 0, y: 0 }, Point { x: 0, y: 0 });
    let l2 = Line::new(Point { x: 0, y: 4 }, Point { x: 0, y: 4 });
    assert!(!l1.crosses(&l2));
    assert!(!l2.crosses(&l1));

    // 1 segment, 1 point-segment
    let l1 = Line::new(Point { x: 0, y: 0 }, Point { x: 0, y: 0 });
    let l2 = Line::new(Point { x: 0, y: -8 }, Point { x: 0, y: -4 });
    assert!(!l1.crosses(&l2));
    assert!(!l2.crosses(&l1));
    let l1 = Line::new(Point { x: 0, y: 0 }, Point { x: 0, y: 0 });
    let l2 = Line::new(Point { x: 0, y: -8 }, Point { x: 0, y: 0 });
    assert!(l1.crosses(&l2));
    assert!(l2.crosses(&l1));
    let l1 = Line::new(Point { x: 0, y: 0 }, Point { x: 0, y: 0 });
    let l2 = Line::new(Point { x: 0, y: -8 }, Point { x: 0, y: 8 });
    assert!(l1.crosses(&l2));
    assert!(l2.crosses(&l1));
    let l1 = Line::new(Point { x: 0, y: 0 }, Point { x: 0, y: 0 });
    let l2 = Line::new(Point { x: 0, y: 0 }, Point { x: 0, y: 8 });
    assert!(l1.crosses(&l2));
    assert!(l2.crosses(&l1));
    let l1 = Line::new(Point { x: 0, y: 0 }, Point { x: 0, y: 0 });
    let l2 = Line::new(Point { x: 0, y: 4 }, Point { x: 0, y: 8 });
    assert!(!l1.crosses(&l2));
    assert!(!l2.crosses(&l1));

    // 2 segments
    let l1 = Line::new(Point { x: 0, y: 0 }, Point { x: 0, y: 4 });
    let l2 = Line::new(Point { x: 0, y: -4 }, Point { x: 0, y: -2 });
    assert!(!l1.crosses(&l2));
    assert!(!l2.crosses(&l1));
    let l1 = Line::new(Point { x: 0, y: 0 }, Point { x: 0, y: 4 });
    let l2 = Line::new(Point { x: 0, y: -2 }, Point { x: 0, y: 0 });
    assert!(l1.crosses(&l2));
    assert!(l2.crosses(&l1));
    let l1 = Line::new(Point { x: 0, y: 0 }, Point { x: 0, y: 4 });
    let l2 = Line::new(Point { x: 0, y: -1 }, Point { x: 0, y: 1 });
    assert!(l1.crosses(&l2));
    assert!(l2.crosses(&l1));
    let l1 = Line::new(Point { x: 0, y: 0 }, Point { x: 0, y: 4 });
    let l2 = Line::new(Point { x: 0, y: 0 }, Point { x: 0, y: 2 });
    assert!(l1.crosses(&l2));
    assert!(l2.crosses(&l1));
    let l1 = Line::new(Point { x: 0, y: 0 }, Point { x: 0, y: 4 });
    let l2 = Line::new(Point { x: 0, y: 0 }, Point { x: 0, y: 4 });
    assert!(l1.crosses(&l2));
    assert!(l2.crosses(&l1));
    let l1 = Line::new(Point { x: 0, y: 0 }, Point { x: 0, y: 4 });
    let l2 = Line::new(Point { x: 0, y: 1 }, Point { x: 0, y: 3 });
    assert!(l1.crosses(&l2));
    assert!(l2.crosses(&l1));
    let l1 = Line::new(Point { x: 0, y: 0 }, Point { x: 0, y: 4 });
    let l2 = Line::new(Point { x: 0, y: 2 }, Point { x: 0, y: 4 });
    assert!(l1.crosses(&l2));
    assert!(l2.crosses(&l1));
    let l1 = Line::new(Point { x: 0, y: 0 }, Point { x: 0, y: 4 });
    let l2 = Line::new(Point { x: 0, y: 3 }, Point { x: 0, y: 5 });
    assert!(l1.crosses(&l2));
    assert!(l2.crosses(&l1));
    let l1 = Line::new(Point { x: 0, y: 0 }, Point { x: 0, y: 4 });
    let l2 = Line::new(Point { x: 0, y: 4 }, Point { x: 0, y: 6 });
    assert!(l1.crosses(&l2));
    assert!(l2.crosses(&l1));
    let l1 = Line::new(Point { x: 0, y: 0 }, Point { x: 0, y: 4 });
    let l2 = Line::new(Point { x: 0, y: 6 }, Point { x: 0, y: 8 });
    assert!(!l1.crosses(&l2));
    assert!(!l2.crosses(&l1));

    let l1 = Line::new(Point { x: 0, y: 0 }, Point { x: 0, y: 4 });
    let l2 = Line::new(Point { x: 0, y: -8 }, Point { x: 0, y: 8 });
    assert!(l1.crosses(&l2));
    assert!(l2.crosses(&l1));
}
