use sweepline::event::{Event, EventQueue, EventType};
use sweepline::line::Line;
use sweepline::line_with_ord::below;
use sweepline::point::Point;
use sweepline::rat::Rat;
use sweepline::status::SweepStatus;
use sweepline::line_with_ord::LineWithOrd;
use sweepline::sweep::{count_crossings_pairwise, run_sweep};

#[test]
fn queue_pops_in_ascending_order() {
    let l = Line::new(Point { x: 0, y: 0 }, Point { x: 1, y: 1 });
    let mut q = EventQueue::new();
    q.push(Event::new(Rat::from_i64(3), l, EventType::Start));
    q.push(Event::new(Rat::from_i64(1), l, EventType::Start));
    q.push(Event::new(Rat::from_i64(2), l, EventType::End));
    let xs: Vec<i128> = (0..3).map(|_| q.pop_min().unwrap().x.num).collect();
    assert_eq!(xs, vec![1, 2, 3]);
    assert!(q.pop_min().is_none());
}

#[test]
fn status_orders_by_height_and_slope() {
    let x = Rat::from_i64(2);
    let low = Line::new(Point { x: 0, y: 0 }, Point { x: 4, y: 0 });
    let high = Line::new(Point { x: 0, y: 2 }, Point { x: 4, y: 2 });
    let mid = Line::new(Point { x: 0, y: 0 }, Point { x: 4, y: 2 });
    let mut status = SweepStatus::new();
    assert_eq!(status.insert(LineWithOrd::new(low, x)), (0, true));
    assert_eq!(status.insert(LineWithOrd::new(high, x)), (1, true));
    assert_eq!(status.insert(LineWithOrd::new(mid, x)), (1, true));
    assert_eq!(status.len(), 3);

    // through a common point the steeper segment counts as the upper one
    let origin = Rat::from_i64(0);
    let up = Line::new(Point { x: 0, y: 0 }, Point { x: 4, y: 4 });
    let down = Line::new(Point { x: 0, y: 0 }, Point { x: 4, y: -4 });
    assert!(below(&down, &up, &origin));
    assert!(!below(&up, &down, &origin));
}

#[test]
fn sweep_counts_single_crossing() {
    let lines = vec![
        Line::new(Point { x: 0, y: 0 }, Point { x: 2, y: 2 }),
        Line::new(Point { x: 0, y: 2 }, Point { x: 2, y: 0 }),
    ];
    let outcome = run_sweep(&lines);
    assert!(outcome.completed);
    assert_eq!(outcome.crossings, 1);
    assert_eq!(outcome.skipped, 0);
    assert_eq!(outcome.swept, 2);
    assert_eq!(count_crossings_pairwise(&lines), 1);
}

#[test]
fn sweep_sets_vertical_segments_aside() {
    let lines = vec![
        Line::new(Point { x: 1, y: 0 }, Point { x: 1, y: 5 }),
        Line::new(Point { x: 0, y: 0 }, Point { x: 3, y: 1 }),
    ];
    let outcome = run_sweep(&lines);
    assert!(outcome.completed);
    assert_eq!(outcome.skipped, 1);
    assert_eq!(outcome.swept, 1);
    assert_eq!(outcome.crossings, 0);
    // the quadratic reference still sees the vertical segment
    assert_eq!(count_crossings_pairwise(&lines), 1);
}

#[test]
fn sweep_handles_disjoint_segments() {
    let lines = vec![
        Line::new(Point { x: 0, y: 0 }, Point { x: 1, y: 1 }),
        Line::new(Point { x: 5, y: 0 }, Point { x: 6, y: 1 }),
        Line::new(Point { x: 10, y: 0 }, Point { x: 11, y: 1 }),
    ];
    let outcome = run_sweep(&lines);
    assert!(outcome.completed);
    assert_eq!(outcome.crossings, 0);
    assert_eq!(count_crossings_pairwise(&lines), 0);
}

struct Lcg(u64);

impl Lcg {
    fn next(&mut self) -> u64 {
        self.0 = self
            .0
            .wrapping_mul(6364136223846793005)
            .wrapping_add(1442695040888963407);
        self.0 >> 33
    }
}

fn random_segments(seed: u64, n: usize, span: i64, maxlen: i64) -> Vec<Line> {
    let mut g = Lcg(seed);
    let mut lines = Vec::new();
    while lines.len() < n {
        let x1 = (g.next() % span as u64) as i64;
        let y1 = (g.next() % span as u64) as i64;
        let dx = (g.next() % (2 * maxlen + 1) as u64) as i64 - maxlen;
        let dy = (g.next() % (2 * maxlen + 1) as u64) as i64 - maxlen;
        let x2 = x1 + dx;
        let y2 = y1 + dy;
        if x1 == x2 {
            continue;
        }
        if !(0 <= x2 && x2 < span && 0 <= y2 && y2 < span) {
            continue;
        }
        lines.push(Line::new(Point { x: x1, y: y1 }, Point { x: x2, y: y2 }));
    }
    lines
}

// The sweep's count over a scattered set of a thousand segments equals the
// quadratic pairwise reference.
#[test]
fn end_to_end_thousand_segments() {
    let lines = random_segments(7, 1000, 60000, 500);
    let outcome = run_sweep(&lines);
    let reference = count_crossings_pairwise(&lines);
    assert!(outcome.completed);
    assert_eq!(outcome.skipped, 0);
    assert_eq!(outcome.swept, 1000);
    assert_eq!(reference, 12);
    assert_eq!(outcome.crossings, reference);
}

// A second, denser draw agrees with the reference as well.
#[test]
fn end_to_end_longer_segments() {
    let lines = random_segments(1, 120, 60000, 4000);
    let outcome = run_sweep(&lines);
    let reference = count_crossings_pairwise(&lines);
    assert!(outcome.completed);
    assert_eq!(reference, 13);
    assert_eq!(outcome.crossings, reference);
}
