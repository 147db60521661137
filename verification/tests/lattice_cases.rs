use sweepline::ccw::{ccw, Ccw, CcwCombination};
use sweepline::line::Line;
use sweepline::point::Point;

// For all 4 coordinates of two lines, iterate over all points in a 7x7
// lattice, calculate the minimized orientation combination, and check that
// it is never one of the two geometrically impossible ones.
#[test]
fn case7_9() {
    let impossible1 = CcwCombination {
        ccw1: Ccw::Left,
        ccw2: Ccw::Middle,
        ccw3: Ccw::Middle,
        ccw4: Ccw::Middle,
    };
    let impossible2 = CcwCombination {
        ccw1: Ccw::Left,
        ccw2: Ccw::Right,
        ccw3: Ccw::Middle,
        ccw4: Ccw::Middle,
    };

    for a in 0..7i64 {
        for b in 0..7i64 {
            for c in 0..7i64 {
                for d in 0..8i64 {
                    for e in 0..7i64 {
                        for f in 0..7i64 {
                            for g in 0..7i64 {
                                for h in 0..7i64 {
                                    let l1 = Line::new(Point { x: a, y: b }, Point { x: c, y: d });
                                    let l2 = Line::new(Point { x: e, y: f }, Point { x: g, y: h });

                                    let ccw1 = Ccw::from(ccw(&l1.p1, &l1.p2, &l2.p1));
                                    let ccw2 = Ccw::from(ccw(&l1.p1, &l1.p2, &l2.p2));
                                    let ccw3 = Ccw::from(ccw(&l2.p1, &l2.p2, &l1.p1));
                                    let ccw4 = Ccw::from(ccw(&l2.p1, &l2.p2, &l1.p2));
                                    let minimized_ccw_combi = CcwCombination {
                                        ccw1,
                                        ccw2,
                                        ccw3,
                                        ccw4,
                                    }
                                    .minimize();
                                    assert!(minimized_ccw_combi != impossible1);
                                    assert!(minimized_ccw_combi != impossible2);
                                }
                            }
                        }
                    }
                }
            }
        }
    }
}
