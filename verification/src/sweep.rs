use vstd::prelude::*;

use crate::ccw::{cross_defined, cross_point_of, crossing_point};
use crate::event::{Event, EventQueue, EventType};
use crate::line::Line;
use crate::line_with_ord::{below, below_spec, key_eq_spec, LineWithOrd};
use crate::rat::Rat;
use crate::status::{sweepable, SweepStatus};

verus! {

/// What the engine may hold in its event queue: a well-formed sweep
/// position, a sweepable carried segment, and, for a crossing event, a
/// payload pair that does cross.
pub open spec fn event_ok(e: Event) -> bool {
    &&& e.x.pos_wf()
    &&& sweepable(e.line)
    &&& match e.event_type {
        EventType::Start => true,
        EventType::End => true,
        EventType::Intersection(p, l1, l2) => {
            &&& sweepable(l1)
            &&& sweepable(l2)
            &&& p.x.pos_wf()
            &&& p.y.pos_wf()
            &&& l1.crosses_spec(l2)
        },
    }
}

/// Every pending event is one the engine may hold.
pub open spec fn queue_ok(q: EventQueue) -> bool {
    forall|i: int| 0 <= i < q.events@.len() ==> event_ok(#[trigger] q.events@[i])
}

/// Whether the engine schedules a crossing event for `l` against the
/// neighbour `nb` found at position `x`: the segments must cross, their
/// crossing point must be defined, and it must lie strictly right of `x`.
pub open spec fn sched_cond(l: Line, nb: Line, x: Rat) -> bool {
    &&& l.crosses_spec(nb)
    &&& cross_defined(l.p1, l.p2, nb.p1, nb.p2)
    &&& x.lt_spec(cross_point_of(l.p1, l.p2, nb.p1, nb.p2).x)
}

/// The crossing event scheduled for `l` against `nb`.
pub open spec fn cross_event(l: Line, nb: Line) -> Event {
    Event {
        x: cross_point_of(l.p1, l.p2, nb.p1, nb.p2).x,
        line: l,
        event_type: EventType::Intersection(cross_point_of(l.p1, l.p2, nb.p1, nb.p2), l, nb),
    }
}

/// The events scheduled for `l` against an optional neighbour at `x`: one
/// crossing event when the condition holds, none otherwise.
pub open spec fn sched_seq(nb: Option<Line>, l: Line, x: Rat) -> Seq<Event> {
    match nb {
        Option::None => Seq::empty(),
        Option::Some(n) => if sched_cond(l, n, x) {
            seq![cross_event(l, n)]
        } else {
            Seq::empty()
        },
    }
}

/// The neighbour above the position `i` that `locate` returned for a probe,
/// read from the entries as they were before any update: when the probe was
/// inserted at `i` the old entry at `i` is the successor, and when an entry
/// with the probe's key already sat at `i` its successor is the next one.
pub open spec fn above_neighbour(s: Seq<LineWithOrd>, i: int, inserted: bool) -> Option<Line> {
    if inserted {
        if i < s.len() {
            Option::Some(s[i].line)
        } else {
            Option::None
        }
    } else {
        if i + 1 < s.len() {
            Option::Some(s[i + 1].line)
        } else {
            Option::None
        }
    }
}

/// The neighbour below position `i`.
pub open spec fn below_neighbour(s: Seq<LineWithOrd>, i: int) -> Option<Line> {
    if 0 < i <= s.len() {
        Option::Some(s[i - 1].line)
    } else {
        Option::None
    }
}

/// Everything `treat_left_endpoint` does, pinned over the position `i` and
/// insertion outcome `ins` of the status update: the segment enters the
/// status structure at its place in the derived order (or is dropped on a
/// key collision), and a crossing event is scheduled against the upper and
/// the lower neighbour exactly when the scheduling condition holds.
pub open spec fn treat_left_post(
    s0: SweepStatus,
    s1: SweepStatus,
    q0: EventQueue,
    q1: EventQueue,
    l: Line,
    x: Rat,
    i: int,
    ins: bool,
) -> bool {
    &&& 0 <= i <= s0.entries@.len()
    &&& (forall|j: int| 0 <= j < i ==> below_spec(#[trigger] s0.entries@[j].line, l, x))
    &&& (i < s0.entries@.len() && !ins ==> key_eq_spec(s0.entries@[i].line, l, x))
    &&& (i < s0.entries@.len() && ins ==> !below_spec(s0.entries@[i].line, l, x)
        && !key_eq_spec(s0.entries@[i].line, l, x))
    &&& (!ins ==> i < s0.entries@.len())
    &&& (ins ==> s1.entries@ == s0.entries@.insert(i, LineWithOrd { line: l, sweep_x: x }))
    &&& (!ins ==> s1.entries@ == s0.entries@)
    &&& q1.events@ == q0.events@ + sched_seq(above_neighbour(s0.entries@, i, ins), l, x)
        + sched_seq(below_neighbour(s0.entries@, i), l, x)
}

/// The events scheduled for a reunited pair of neighbours at `x`: one
/// crossing event when both neighbours exist and the scheduling condition
/// holds for the pair, none otherwise.
pub open spec fn sched_pair_seq(a: Option<Line>, b: Option<Line>, x: Rat) -> Seq<Event> {
    match (a, b) {
        (Option::Some(up), Option::Some(lo)) => if sched_cond(up, lo, x) {
            seq![cross_event(up, lo)]
        } else {
            Seq::empty()
        },
        _ => Seq::empty(),
    }
}

/// The successor of position `i` among the stored entries.
pub open spec fn successor_neighbour(s: Seq<LineWithOrd>, i: int) -> Option<Line> {
    if 0 <= i && i + 1 < s.len() {
        Option::Some(s[i + 1].line)
    } else {
        Option::None
    }
}

/// Everything `treat_right_endpoint` does, pinned over the position `i` and
/// the lookup outcome `found`: the entry with the segment's derived key
/// leaves the status structure, and the pair of neighbours its departure
/// reunites gets a crossing event exactly when the scheduling condition
/// holds for it.
pub open spec fn treat_right_post(
    s0: SweepStatus,
    s1: SweepStatus,
    q0: EventQueue,
    q1: EventQueue,
    l: Line,
    x: Rat,
    i: int,
    found: bool,
) -> bool {
    &&& 0 <= i <= s0.entries@.len()
    &&& (forall|j: int| 0 <= j < i ==> below_spec(#[trigger] s0.entries@[j].line, l, x))
    &&& (i < s0.entries@.len() ==> !below_spec(s0.entries@[i].line, l, x))
    &&& found == (i < s0.entries@.len() && key_eq_spec(s0.entries@[i].line, l, x))
    &&& (found ==> s1.entries@ == s0.entries@.remove(i))
    &&& (!found ==> s1.entries@ == s0.entries@)
    &&& q1.events@ == q0.events@ + sched_pair_seq(
        successor_neighbour(s0.entries@, i),
        below_neighbour(s0.entries@, i),
        x,
    )
}

/// Handle the right endpoint of a segment: locate its predecessor and
/// successor, remove the segment from the status structure, and, when the
/// two reunited neighbours cross strictly right of the sweep line, schedule
/// a crossing event for that pair.
pub fn treat_right_endpoint(
    event: &Event,
    sweep_line: &mut SweepStatus,
    event_queue: &mut EventQueue,
)
    requires
        sweepable(event.line),
        event.x.pos_wf(),
        old(sweep_line).wf(),
        queue_ok(*old(event_queue)),
    ensures
        final(sweep_line).wf(),
        queue_ok(*final(event_queue)),
        exists|i: int, found: bool|
            treat_right_post(
                *old(sweep_line),
                *final(sweep_line),
                *old(event_queue),
                *final(event_queue),
                event.line,
                event.x,
                i,
                found,
            ),
{
    let line = event.line;
    let ghost s0 = *sweep_line;
    let ghost q0 = *event_queue;

    let (i, found) = sweep_line.locate(&line, &event.x);
    let n = sweep_line.len();

    let above: Option<LineWithOrd> = if i < n && i + 1 < n {
        Option::Some(sweep_line.get(i + 1))
    } else {
        Option::None
    };
    let below_e: Option<LineWithOrd> = if i > 0 {
        Option::Some(sweep_line.get(i - 1))
    } else {
        Option::None
    };

    if found {
        sweep_line.remove_at(i);
    }

    match (above, below_e) {
        (Option::Some(above_seg), Option::Some(below_seg)) => {
            if above_seg.line.crosses(&below_seg.line) {
                match crossing_point(
                    &above_seg.line.p1,
                    &above_seg.line.p2,
                    &below_seg.line.p1,
                    &below_seg.line.p2,
                ) {
                    Option::Some(p) => {
                        if event.x.lt(&p.x) {
                            event_queue.push(
                                Event::new(
                                    p.x,
                                    above_seg.line,
                                    EventType::Intersection(p, above_seg.line, below_seg.line),
                                ),
                            );
                        }
                    },
                    Option::None => {},
                }
            }
        },
        _ => {},
    }
    proof {
        assert(event_queue.events@ == q0.events@ + sched_pair_seq(
            successor_neighbour(s0.entries@, i as int),
            below_neighbour(s0.entries@, i as int),
            event.x,
        ));
        assert(treat_right_post(
            s0,
            *sweep_line,
            q0,
            *event_queue,
            event.line,
            event.x,
            i as int,
            found,
        ));
    }
}

/// The position `i` is where the derived order at `x` places `l` among the
/// entries `s`: everything before it is strictly below `l` and the entry at
/// it, if any, is not.
pub open spec fn locate_props(s: Seq<LineWithOrd>, l: Line, x: Rat, i: int) -> bool {
    &&& 0 <= i <= s.len()
    &&& (forall|j: int| 0 <= j < i ==> below_spec(#[trigger] s[j].line, l, x))
    &&& (i < s.len() ==> !below_spec(s[i].line, l, x))
}

/// One removal by derived key at `x`, at position `i`: the entry there
/// leaves `s` when it carries `l`'s key, and `s` stays as it is otherwise.
pub open spec fn remove_step_at(
    s: Seq<LineWithOrd>,
    t: Seq<LineWithOrd>,
    l: Line,
    x: Rat,
    i: int,
) -> bool {
    &&& locate_props(s, l, x, i)
    &&& if i < s.len() && key_eq_spec(s[i].line, l, x) {
        t == s.remove(i)
    } else {
        t == s
    }
}

/// One removal by derived key at `x`: the entry carrying `l`'s key leaves
/// `s`, or `s` stays as it is when no entry carries it.
pub open spec fn remove_step(s: Seq<LineWithOrd>, t: Seq<LineWithOrd>, l: Line, x: Rat) -> bool {
    exists|i: int| remove_step_at(s, t, l, x, i)
}

/// One set-insertion keyed at `x`, at position `i`: `l` enters `s` there
/// unless an entry with its key already sits there.
pub open spec fn insert_step_at(
    s: Seq<LineWithOrd>,
    t: Seq<LineWithOrd>,
    l: Line,
    x: Rat,
    i: int,
) -> bool {
    &&& locate_props(s, l, x, i)
    &&& if i < s.len() && key_eq_spec(s[i].line, l, x) {
        t == s
    } else {
        t == s.insert(i, LineWithOrd { line: l, sweep_x: x })
    }
}

/// One set-insertion keyed at `x`: `l` enters `s` at its place in the
/// derived order, or `s` stays as it is when an entry with its key is
/// already present.
pub open spec fn insert_step(s: Seq<LineWithOrd>, t: Seq<LineWithOrd>, l: Line, x: Rat) -> bool {
    exists|i: int| insert_step_at(s, t, l, x, i)
}

/// Everything `treat_intersection` does for the crossing pair `(a, b)` at
/// position `x`: both segments leave the status structure by their derived
/// keys and re-enter it keyed at `x`, where the slope tie-break realises
/// their swapped order, and the upper of the two is checked against its new
/// successor, the lower against its new predecessor, each pair getting a
/// crossing event exactly when the scheduling condition holds.
pub open spec fn treat_intersection_post(
    s0: SweepStatus,
    s1: SweepStatus,
    q0: EventQueue,
    q1: EventQueue,
    a: Line,
    b: Line,
    x: Rat,
    t1: Seq<LineWithOrd>,
    t2: Seq<LineWithOrd>,
    t3: Seq<LineWithOrd>,
    iu: int,
    il: int,
) -> bool {
    let upper = if below_spec(a, b, x) {
        b
    } else {
        a
    };
    let lower = if below_spec(a, b, x) {
        a
    } else {
        b
    };
    &&& remove_step(s0.entries@, t1, a, x)
    &&& remove_step(t1, t2, b, x)
    &&& insert_step(t2, t3, b, x)
    &&& insert_step(t3, s1.entries@, a, x)
    &&& locate_props(s1.entries@, upper, x, iu)
    &&& locate_props(s1.entries@, lower, x, il)
    &&& q1.events@ == q0.events@ + sched_seq(successor_neighbour(s1.entries@, iu), upper, x)
        + sched_seq(below_neighbour(s1.entries@, il), lower, x)
}

/// Handle a discovered crossing: remove the two segments of the pair from
/// the status structure, re-insert both keyed at the crossing position --
/// the slope tie-break puts them in the order they hold just right of the
/// crossing -- and schedule crossing events against the new outer
/// neighbours of the swapped pair.
#[verifier::rlimit(60)]
pub fn treat_intersection(
    event: &Event,
    sweep_line: &mut SweepStatus,
    event_queue: &mut EventQueue,
)
    requires
        event.x.pos_wf(),
        event.event_type is Intersection,
        match event.event_type {
            EventType::Intersection(_p, a, b) => sweepable(a) && sweepable(b),
            _ => true,
        },
        old(sweep_line).wf(),
        queue_ok(*old(event_queue)),
    ensures
        final(sweep_line).wf(),
        queue_ok(*final(event_queue)),
        match event.event_type {
            EventType::Intersection(_p, a, b) => exists|
                t1: Seq<LineWithOrd>,
                t2: Seq<LineWithOrd>,
                t3: Seq<LineWithOrd>,
                iu: int,
                il: int,
            |
                treat_intersection_post(
                    *old(sweep_line),
                    *final(sweep_line),
                    *old(event_queue),
                    *final(event_queue),
                    a,
                    b,
                    event.x,
                    t1,
                    t2,
                    t3,
                    iu,
                    il,
                ),
            _ => true,
        },
{
    let ghost s0 = *sweep_line;
    let ghost q0 = *event_queue;
    let x = event.x;

    match event.event_type {
        EventType::Intersection(_p, a_line, b_line) => {
            let (ia, fa) = sweep_line.locate(&a_line, &x);
            if fa {
                sweep_line.remove_at(ia);
            }
            let ghost t1 = sweep_line.entries@;
            let (ib, fb) = sweep_line.locate(&b_line, &x);
            if fb {
                sweep_line.remove_at(ib);
            }
            let ghost t2 = sweep_line.entries@;
            let (jb, _insb) = sweep_line.insert(LineWithOrd::new(b_line, x));
            let ghost t3 = sweep_line.entries@;
            let (ja, _insa) = sweep_line.insert(LineWithOrd::new(a_line, x));

            let a_is_lower = below(&a_line, &b_line, &x);
            let upper: Line = if a_is_lower {
                b_line
            } else {
                a_line
            };
            let lower: Line = if a_is_lower {
                a_line
            } else {
                b_line
            };

            let (iu, _fu) = sweep_line.locate(&upper, &x);
            let n = sweep_line.len();
            if iu < n && iu + 1 < n {
                let above_seg = sweep_line.get(iu + 1);
                if upper.crosses(&above_seg.line) {
                    match crossing_point(
                        &upper.p1,
                        &upper.p2,
                        &above_seg.line.p1,
                        &above_seg.line.p2,
                    ) {
                        Option::Some(p2) => {
                            if x.lt(&p2.x) {
                                event_queue.push(
                                    Event::new(
                                        p2.x,
                                        upper,
                                        EventType::Intersection(p2, upper, above_seg.line),
                                    ),
                                );
                            }
                        },
                        Option::None => {},
                    }
                }
            }
            let ghost q1 = *event_queue;
            proof {
                assert(q1.events@ == q0.events@ + sched_seq(
                    successor_neighbour(sweep_line.entries@, iu as int),
                    upper,
                    x,
                ));
            }

            let (il, _fl) = sweep_line.locate(&lower, &x);
            if il > 0 {
                let below_seg = sweep_line.get(il - 1);
                if lower.crosses(&below_seg.line) {
                    match crossing_point(
                        &lower.p1,
                        &lower.p2,
                        &below_seg.line.p1,
                        &below_seg.line.p2,
                    ) {
                        Option::Some(p3) => {
                            if x.lt(&p3.x) {
                                event_queue.push(
                                    Event::new(
                                        p3.x,
                                        lower,
                                        EventType::Intersection(p3, lower, below_seg.line),
                                    ),
                                );
                            }
                        },
                        Option::None => {},
                    }
                }
            }
            proof {
                assert(event_queue.events@ == q1.events@ + sched_seq(
                    below_neighbour(sweep_line.entries@, il as int),
                    lower,
                    x,
                ));
                assert(remove_step_at(s0.entries@, t1, a_line, x, ia as int));
                assert(remove_step_at(t1, t2, b_line, x, ib as int));
                assert(insert_step_at(t2, t3, b_line, x, jb as int));
                assert(insert_step_at(t3, sweep_line.entries@, a_line, x, ja as int));
                assert(remove_step(s0.entries@, t1, a_line, x));
                assert(remove_step(t1, t2, b_line, x));
                assert(insert_step(t2, t3, b_line, x));
                assert(insert_step(t3, sweep_line.entries@, a_line, x));
                assert(locate_props(sweep_line.entries@, upper, x, iu as int));
                assert(locate_props(sweep_line.entries@, lower, x, il as int));
                assert(event_queue.events@ =~= q0.events@ + sched_seq(
                    successor_neighbour(sweep_line.entries@, iu as int),
                    upper,
                    x,
                ) + sched_seq(below_neighbour(sweep_line.entries@, il as int), lower, x));
                assert(treat_intersection_post(
                    s0,
                    *sweep_line,
                    q0,
                    *event_queue,
                    a_line,
                    b_line,
                    x,
                    t1,
                    t2,
                    t3,
                    iu as int,
                    il as int,
                ));
            }
        },
        _ => {
            proof {
                assert(false);
            }
        },
    }
}

/// Handle the left endpoint of a segment: insert it into the status
/// structure keyed by its y-value at the current position, and schedule a
/// crossing event against each of its new neighbours whose crossing point
/// lies strictly right of the sweep line.
pub fn treat_left_endpoint(event: &Event, sweep_line: &mut SweepStatus, event_queue: &mut EventQueue)
    requires
        sweepable(event.line),
        event.x.pos_wf(),
        old(sweep_line).wf(),
        queue_ok(*old(event_queue)),
    ensures
        final(sweep_line).wf(),
        queue_ok(*final(event_queue)),
        exists|i: int, ins: bool|
            treat_left_post(
                *old(sweep_line),
                *final(sweep_line),
                *old(event_queue),
                *final(event_queue),
                event.line,
                event.x,
                i,
                ins,
            ),
{
    let line = event.line;
    let current_seg = LineWithOrd::new(line, event.x);
    let ghost s0 = *sweep_line;
    let ghost q0 = *event_queue;

    let (i, ins) = sweep_line.insert(current_seg);

    let n = sweep_line.len();
    proof {
        assert(i < n);
    }
    let above_idx: usize = i + 1;
    if above_idx < n {
        let above_seg = sweep_line.get(above_idx);
        proof {
            if ins {
                assert(above_seg == s0.entries@[i as int]);
            }
        }
        if line.crosses(&above_seg.line) {
            match crossing_point(&line.p1, &line.p2, &above_seg.line.p1, &above_seg.line.p2) {
                Option::Some(p) => {
                    if event.x.lt(&p.x) {
                        event_queue.push(
                            Event::new(
                                p.x,
                                line,
                                EventType::Intersection(p, line, above_seg.line),
                            ),
                        );
                    }
                },
                Option::None => {},
            }
        }
    }
    let ghost q1 = *event_queue;
    proof {
        assert(q1.events@ == q0.events@ + sched_seq(
            above_neighbour(s0.entries@, i as int, ins),
            line,
            event.x,
        ));
    }

    if i > 0 {
        let below_seg = sweep_line.get(i - 1);
        if line.crosses(&below_seg.line) {
            match crossing_point(&line.p1, &line.p2, &below_seg.line.p1, &below_seg.line.p2) {
                Option::Some(p) => {
                    if event.x.lt(&p.x) {
                        event_queue.push(
                            Event::new(
                                p.x,
                                line,
                                EventType::Intersection(p, line, below_seg.line),
                            ),
                        );
                    }
                },
                Option::None => {},
            }
        }
    }
    proof {
        assert(event_queue.events@ == q1.events@ + sched_seq(
            below_neighbour(s0.entries@, i as int),
            line,
            event.x,
        ));
        assert(treat_left_post(
            s0,
            *sweep_line,
            q0,
            *event_queue,
            event.line,
            event.x,
            i as int,
            ins,
        ));
    }
}

/// Number of vertical segments among the first `n` of `s`.
pub open spec fn vertical_count(s: Seq<Line>, n: int) -> int
    decreases n,
{
    if n <= 0 {
        0
    } else {
        vertical_count(s, n - 1) + if s[n - 1].p1.x == s[n - 1].p2.x {
            1int
        } else {
            0int
        }
    }
}

/// Number of indices `k` in `[j, len)` for which segment `i` crosses
/// segment `k`.
pub open spec fn row_cross_count(s: Seq<Line>, i: int, j: int) -> int
    decreases s.len() - j,
{
    if j < 0 || j >= s.len() {
        0
    } else {
        (if s[i].crosses_spec(s[j]) {
            1int
        } else {
            0int
        }) + row_cross_count(s, i, j + 1)
    }
}

/// Number of unordered pairs `{i, k}` with `j <= i < k < len` whose
/// segments cross.
pub open spec fn cross_pair_count(s: Seq<Line>, j: int) -> int
    decreases s.len() - j,
{
    if j < 0 || j >= s.len() {
        0
    } else {
        row_cross_count(s, j, j + 1) + cross_pair_count(s, j + 1)
    }
}


/// Every reported pair crosses.
pub open spec fn all_pairs_cross(pairs: Seq<(Line, Line)>) -> bool {
    forall|k: int| 0 <= k < pairs.len() ==> (#[trigger] pairs[k]).0.crosses_spec(pairs[k].1)
}

/// Whether `l` is one of the input segments.
pub open spec fn in_input(l: Line, s: Seq<Line>) -> bool {
    exists|j: int| 0 <= j < s.len() && s[j] == l
}

/// Every stored entry wraps an input segment.
pub open spec fn entries_from(t: Seq<LineWithOrd>, s: Seq<Line>) -> bool {
    forall|k: int| 0 <= k < t.len() ==> in_input(#[trigger] t[k].line, s)
}

/// The carried segment and any payload pair are input segments.
pub open spec fn event_from(e: Event, s: Seq<Line>) -> bool {
    &&& in_input(e.line, s)
    &&& match e.event_type {
        EventType::Intersection(_p, l1, l2) => in_input(l1, s) && in_input(l2, s),
        _ => true,
    }
}

/// Every pending event speaks of input segments only.
pub open spec fn queue_from(q: EventQueue, s: Seq<Line>) -> bool {
    forall|k: int| 0 <= k < q.events@.len() ==> event_from(#[trigger] q.events@[k], s)
}

/// Both members of every reported pair are input segments.
pub open spec fn all_pairs_from(pairs: Seq<(Line, Line)>, s: Seq<Line>) -> bool {
    forall|k: int|
        0 <= k < pairs.len() ==> in_input((#[trigger] pairs[k]).0, s) && in_input(pairs[k].1, s)
}

/// A set-insertion keyed at `x` only adds the inserted segment: when both
/// it and everything stored before come from the input, so does everything
/// stored after.
proof fn lemma_insert_step_from(
    t0: Seq<LineWithOrd>,
    t1: Seq<LineWithOrd>,
    l: Line,
    x: Rat,
    s: Seq<Line>,
)
    requires
        insert_step(t0, t1, l, x),
        entries_from(t0, s),
        in_input(l, s),
    ensures
        entries_from(t1, s),
{
    let i = choose|i: int| insert_step_at(t0, t1, l, x, i);
    if i < t0.len() && key_eq_spec(t0[i].line, l, x) {
    } else {
        assert forall|k: int| 0 <= k < t1.len() implies in_input(t1[k].line, s) by {
            if k < i {
                assert(t1[k] == t0[k]);
            } else if k == i {
                assert(t1[k].line == l);
            } else {
                assert(t1[k] == t0[k - 1]);
            }
        }
    }
}

/// A removal by derived key only drops an entry: everything stored after
/// was stored before.
proof fn lemma_remove_step_from(
    t0: Seq<LineWithOrd>,
    t1: Seq<LineWithOrd>,
    l: Line,
    x: Rat,
    s: Seq<Line>,
)
    requires
        remove_step(t0, t1, l, x),
        entries_from(t0, s),
    ensures
        entries_from(t1, s),
{
    let i = choose|i: int| remove_step_at(t0, t1, l, x, i);
    if i < t0.len() && key_eq_spec(t0[i].line, l, x) {
        assert forall|k: int| 0 <= k < t1.len() implies in_input(t1[k].line, s) by {
            if k < i {
                assert(t1[k] == t0[k]);
            } else {
                assert(t1[k] == t0[k + 1]);
            }
        }
    }
}

/// Count crossings by checking every unordered pair of segments with the
/// boundary-aware crossing predicate.  This is the quadratic reference the
/// sweep engine is measured against.
pub fn count_crossings_pairwise(lines: &Vec<Line>) -> (r: u64)
    requires
        forall|i: int|
            0 <= i < lines@.len() ==> (#[trigger] lines@[i]).p1.in_range()
                && lines@[i].p2.in_range(),
        lines@.len() < 0x8000_0000,
    ensures
        r as int == cross_pair_count(lines@, 0),
{
    let n = lines.len();
    let mut count: u64 = 0;
    let mut i: usize = 0;
    while i < n
        invariant
            n == lines@.len(),
            n < 0x8000_0000,
            forall|k: int|
                0 <= k < lines@.len() ==> (#[trigger] lines@[k]).p1.in_range()
                    && lines@[k].p2.in_range(),
            i <= n,
            count as int == cross_pair_count(lines@, 0) - cross_pair_count(lines@, i as int),
            count as int <= (i as int) * (n as int),
        decreases n - i,
    {
        let mut j: usize = i + 1;
        while j < n
            invariant
                n == lines@.len(),
                n < 0x8000_0000,
                forall|k: int|
                    0 <= k < lines@.len() ==> (#[trigger] lines@[k]).p1.in_range()
                        && lines@[k].p2.in_range(),
                i < n,
                i < j <= n,
                count as int == cross_pair_count(lines@, 0) - cross_pair_count(lines@, i as int)
                    + row_cross_count(lines@, i as int, i as int + 1) - row_cross_count(
                    lines@,
                    i as int,
                    j as int,
                ),
                count as int <= (i as int) * (n as int) + (j as int),
            decreases n - j,
        {
            if lines[i].crosses(&lines[j]) {
                proof {
                    assert((i as int) * (n as int) + (j as int) + 1
                        <= 0x4000000000000000) by (nonlinear_arith)
                        requires
                            0 <= i as int,
                            (i as int) < (n as int),
                            0 <= j as int,
                            (j as int) < (n as int),
                            (n as int) < 0x80000000;
                }
                count = count + 1;
            }
            j = j + 1;
        }
        proof {
            assert((i as int) * (n as int) + (n as int) == (i as int + 1) * (n as int))
                by (nonlinear_arith);
        }
        i = i + 1;
    }
    count
}

/// A left-endpoint treatment neither invents stored segments nor schedules
/// events about segments it was not shown.
proof fn lemma_treat_left_from(
    s0: SweepStatus,
    s1: SweepStatus,
    q0: EventQueue,
    q1: EventQueue,
    l: Line,
    x: Rat,
    s: Seq<Line>,
)
    requires
        exists|i: int, ins: bool| treat_left_post(s0, s1, q0, q1, l, x, i, ins),
        entries_from(s0.entries@, s),
        queue_from(q0, s),
        in_input(l, s),
    ensures
        entries_from(s1.entries@, s),
        queue_from(q1, s),
{
    let (i, ins) = choose|i: int, ins: bool| treat_left_post(s0, s1, q0, q1, l, x, i, ins);
    if ins {
        assert forall|k: int| 0 <= k < s1.entries@.len() implies in_input(
            s1.entries@[k].line,
            s,
        ) by {
            if k < i {
                assert(s1.entries@[k] == s0.entries@[k]);
            } else if k == i {
                assert(s1.entries@[k].line == l);
            } else {
                assert(s1.entries@[k] == s0.entries@[k - 1]);
            }
        }
    }
    assert forall|k: int| 0 <= k < q1.events@.len() implies event_from(
        #[trigger] q1.events@[k],
        s,
    ) by {
        if k < q0.events@.len() {
            assert(q1.events@[k] == q0.events@[k]);
        } else {
            match above_neighbour(s0.entries@, i, ins) {
                Option::Some(nb) => {
                    if ins {
                        assert(in_input(s0.entries@[i].line, s));
                    } else {
                        assert(in_input(s0.entries@[i + 1].line, s));
                    }
                },
                Option::None => {},
            }
            match below_neighbour(s0.entries@, i) {
                Option::Some(nb) => {
                    assert(in_input(s0.entries@[i - 1].line, s));
                },
                Option::None => {},
            }
        }
    }
}

/// A right-endpoint treatment only drops a stored segment and schedules an
/// event about two segments it already stored.
proof fn lemma_treat_right_from(
    s0: SweepStatus,
    s1: SweepStatus,
    q0: EventQueue,
    q1: EventQueue,
    l: Line,
    x: Rat,
    s: Seq<Line>,
)
    requires
        exists|i: int, found: bool| treat_right_post(s0, s1, q0, q1, l, x, i, found),
        entries_from(s0.entries@, s),
        queue_from(q0, s),
    ensures
        entries_from(s1.entries@, s),
        queue_from(q1, s),
{
    let (i, found) = choose|i: int, found: bool| treat_right_post(s0, s1, q0, q1, l, x, i, found);
    if found {
        assert forall|k: int| 0 <= k < s1.entries@.len() implies in_input(
            s1.entries@[k].line,
            s,
        ) by {
            if k < i {
                assert(s1.entries@[k] == s0.entries@[k]);
            } else {
                assert(s1.entries@[k] == s0.entries@[k + 1]);
            }
        }
    }
    assert forall|k: int| 0 <= k < q1.events@.len() implies event_from(
        #[trigger] q1.events@[k],
        s,
    ) by {
        if k < q0.events@.len() {
            assert(q1.events@[k] == q0.events@[k]);
        } else {
            match successor_neighbour(s0.entries@, i) {
                Option::Some(nb) => {
                    assert(in_input(s0.entries@[i + 1].line, s));
                },
                Option::None => {},
            }
            match below_neighbour(s0.entries@, i) {
                Option::Some(nb) => {
                    assert(in_input(s0.entries@[i - 1].line, s));
                },
                Option::None => {},
            }
        }
    }
}

/// A crossing treatment moves the two segments of an input pair around and
/// schedules events about segments it already stored.
proof fn lemma_treat_intersection_from(
    s0: SweepStatus,
    s1: SweepStatus,
    q0: EventQueue,
    q1: EventQueue,
    a: Line,
    b: Line,
    x: Rat,
    s: Seq<Line>,
)
    requires
        exists|t1: Seq<LineWithOrd>, t2: Seq<LineWithOrd>, t3: Seq<LineWithOrd>, iu: int, il: int|
            treat_intersection_post(s0, s1, q0, q1, a, b, x, t1, t2, t3, iu, il),
        entries_from(s0.entries@, s),
        queue_from(q0, s),
        in_input(a, s),
        in_input(b, s),
    ensures
        entries_from(s1.entries@, s),
        queue_from(q1, s),
{
    let (t1, t2, t3, iu, il) = choose|
        t1: Seq<LineWithOrd>,
        t2: Seq<LineWithOrd>,
        t3: Seq<LineWithOrd>,
        iu: int,
        il: int,
    | treat_intersection_post(s0, s1, q0, q1, a, b, x, t1, t2, t3, iu, il);
    lemma_remove_step_from(s0.entries@, t1, a, x, s);
    lemma_remove_step_from(t1, t2, b, x, s);
    lemma_insert_step_from(t2, t3, b, x, s);
    lemma_insert_step_from(t3, s1.entries@, a, x, s);
    assert forall|k: int| 0 <= k < q1.events@.len() implies event_from(
        #[trigger] q1.events@[k],
        s,
    ) by {
        if k < q0.events@.len() {
            assert(q1.events@[k] == q0.events@[k]);
        } else {
            match successor_neighbour(s1.entries@, iu) {
                Option::Some(nb) => {
                    assert(in_input(s1.entries@[iu + 1].line, s));
                },
                Option::None => {},
            }
            match below_neighbour(s1.entries@, il) {
                Option::Some(nb) => {
                    assert(in_input(s1.entries@[il - 1].line, s));
                },
                Option::None => {},
            }
        }
    }
}

/// What a sweep run reports: the number of crossing events handled, the
/// number of vertical input segments set aside, the number of segments
/// swept, and whether the event queue was drained within the engine's step
/// budget.
#[derive(Clone, Copy, Debug, PartialEq, Eq, Structural)]
pub struct SweepOutcome {
    pub crossings: u64,
    pub skipped: u64,
    pub swept: u64,
    pub completed: bool,
}

/// Run the plane sweep over the given segments and count the crossings it
/// discovers.
///
/// Vertical segments are set aside before the sweep and only counted.  The
/// engine pops events in ascending abscissa order and handles each with the
/// matching treatment; every counted crossing comes from an event whose
/// pair of segments does cross.  A step budget quadratic in the input size
/// guards termination; a run that would exceed it stops early and says so
/// in the outcome.
pub fn run_sweep(lines: &Vec<Line>) -> (r: SweepOutcome)
    requires
        forall|i: int|
            0 <= i < lines@.len() ==> (#[trigger] lines@[i]).p1.in_range()
                && lines@[i].p2.in_range(),
        lines@.len() <= 0x100000,
    ensures
        r.skipped as int == vertical_count(lines@, lines@.len() as int),
        r.swept as int == lines@.len() - vertical_count(lines@, lines@.len() as int),
        exists|pairs: Seq<(Line, Line)>|
            pairs.len() == r.crossings as int && #[trigger] all_pairs_cross(pairs)
                && all_pairs_from(pairs, lines@),
{
    let n = lines.len();
    let mut event_queue = EventQueue::new();
    let mut sweep_line = SweepStatus::new();
    let mut skipped: u64 = 0;
    let mut swept: u64 = 0;
    let mut idx: usize = 0;
    while idx < n
        invariant
            n == lines@.len(),
            n <= 0x100000,
            forall|k: int|
                0 <= k < lines@.len() ==> (#[trigger] lines@[k]).p1.in_range()
                    && lines@[k].p2.in_range(),
            idx <= n,
            skipped as int == vertical_count(lines@, idx as int),
            skipped as int + swept as int == idx as int,
            queue_ok(event_queue),
            queue_from(event_queue, lines@),
            sweep_line.wf(),
        decreases n - idx,
    {
        let l = lines[idx];
        proof {
            assert(lines@[idx as int] == l);
            assert(in_input(l, lines@));
        }
        if l.p1.x == l.p2.x {
            skipped = skipped + 1;
        } else {
            swept = swept + 1;
            let (left, right) = if l.p1.x < l.p2.x {
                (l.p1, l.p2)
            } else {
                (l.p2, l.p1)
            };
            event_queue.push(Event::new(Rat::from_i64(left.x), l, EventType::Start));
            event_queue.push(Event::new(Rat::from_i64(right.x), l, EventType::End));
        }
        idx = idx + 1;
    }

    let nn: u64 = n as u64;
    proof {
        assert((nn as int + 1) * (nn as int + 1) <= 0x40000000000) by (nonlinear_arith)
            requires
                0 <= nn as int,
                nn as int <= 0x100000;
    }
    let m: u64 = nn + 1;
    let mut fuel: u64 = 8 * (m * m);
    let ghost fuel0 = fuel as int;
    let mut crossings: u64 = 0;
    let ghost mut reported: Seq<(Line, Line)> = Seq::empty();

    while fuel > 0
        invariant
            queue_ok(event_queue),
            queue_from(event_queue, lines@),
            sweep_line.wf(),
            entries_from(sweep_line.entries@, lines@),
            crossings as int == reported.len(),
            all_pairs_cross(reported),
            all_pairs_from(reported, lines@),
            skipped as int == vertical_count(lines@, lines@.len() as int),
            skipped as int + swept as int == lines@.len(),
            0 <= fuel as int <= fuel0,
            fuel0 <= 0x200000000000,
            crossings as int <= fuel0 - fuel as int,
        decreases fuel,
    {
        match event_queue.pop_min() {
            Option::None => {
                proof {
                    assert(all_pairs_cross(reported));
                }
                return SweepOutcome { crossings, skipped, swept, completed: true };
            },
            Option::Some(event) => {
                proof {
                    assert(event_ok(event));
                    assert(event_from(event, lines@));
                }
                let ghost s_pre = sweep_line;
                let ghost q_pre = event_queue;
                match event.event_type {
                    EventType::Start => {
                        treat_left_endpoint(&event, &mut sweep_line, &mut event_queue);
                        proof {
                            lemma_treat_left_from(
                                s_pre,
                                sweep_line,
                                q_pre,
                                event_queue,
                                event.line,
                                event.x,
                                lines@,
                            );
                        }
                    },
                    EventType::End => {
                        treat_right_endpoint(&event, &mut sweep_line, &mut event_queue);
                        proof {
                            lemma_treat_right_from(
                                s_pre,
                                sweep_line,
                                q_pre,
                                event_queue,
                                event.line,
                                event.x,
                                lines@,
                            );
                        }
                    },
                    EventType::Intersection(_p, l1, l2) => {
                        proof {
                            reported = reported.push((l1, l2));
                        }
                        crossings = crossings + 1;
                        treat_intersection(&event, &mut sweep_line, &mut event_queue);
                        proof {
                            lemma_treat_intersection_from(
                                s_pre,
                                sweep_line,
                                q_pre,
                                event_queue,
                                l1,
                                l2,
                                event.x,
                                lines@,
                            );
                        }
                    },
                }
                fuel = fuel - 1;
            },
        }
    }
    SweepOutcome { crossings, skipped, swept, completed: false }
}

} // verus!
