use vstd::prelude::*;

use crate::line::Line;
use crate::rat::{Rat, RatPoint};

verus! {

/// What a scheduled sweep position asks for: entering a segment, leaving
/// one, or handling a discovered crossing of the carried pair.
#[derive(Clone, Copy, Debug)]
pub enum EventType {
    Start,
    End,
    Intersection(RatPoint, Line, Line),
}

/// A scheduled update of the status structure.  Events are ordered by their
/// abscissa alone; the carried segment and payload never take part in the
/// order.
#[derive(Clone, Copy, Debug)]
pub struct Event {
    pub x: Rat,
    pub line: Line,
    pub event_type: EventType,
}

impl Event {
    /// Build an event at abscissa `x` for `line`.
    pub fn new(x: Rat, line: Line, event_type: EventType) -> (r: Event)
        ensures
            r.x == x,
            r.line == line,
            r.event_type == event_type,
    {
        Event { x, line, event_type }
    }
}

/// The event queue: events leave in ascending order of abscissa, with no
/// promise on the order among events of equal abscissa.
pub struct EventQueue {
    pub events: Vec<Event>,
}

impl EventQueue {
    /// An empty queue.
    pub fn new() -> (r: EventQueue)
        ensures
            r.events@ =~= Seq::<Event>::empty(),
    {
        EventQueue { events: Vec::new() }
    }

    /// Number of pending events.
    pub fn len(&self) -> (r: usize)
        ensures
            r == self.events@.len(),
    {
        self.events.len()
    }

    /// Schedule one more event.
    pub fn push(&mut self, e: Event)
        ensures
            final(self).events@ == old(self).events@.push(e),
    {
        self.events.push(e);
    }

    /// Remove and return an event of minimal abscissa, or `None` when the
    /// queue is empty.
    pub fn pop_min(&mut self) -> (r: Option<Event>)
        requires
            forall|i: int| 0 <= i < old(self).events@.len() ==> #[trigger] old(
                self,
            ).events@[i].x.wf(),
        ensures
            r is Some <==> old(self).events@.len() > 0,
            old(self).events@.len() == 0 ==> final(self).events@ == old(self).events@,
            r is Some ==> exists|i: int|
                0 <= i < old(self).events@.len() && r == Some(old(self).events@[i])
                    && final(self).events@ == old(self).events@.remove(i),
            r is Some ==> forall|j: int|
                0 <= j < old(self).events@.len() ==> !#[trigger] old(self).events@[j].x.lt_spec(
                    r.unwrap().x,
                ),
            forall|j: int|
                0 <= j < final(self).events@.len() ==> exists|i2: int|
                    0 <= i2 < old(self).events@.len() && #[trigger] final(self).events@[j] == old(
                        self,
                    ).events@[i2],
    {
        if self.events.len() == 0 {
            return None;
        }
        let ghost evs = self.events@;
        let mut best: usize = 0;
        let mut k: usize = 1;
        while k < self.events.len()
            invariant
                0 <= best < k <= self.events@.len(),
                self.events@ == evs,
                forall|i: int| 0 <= i < evs.len() ==> #[trigger] evs[i].x.wf(),
                forall|j: int| 0 <= j < k ==> !#[trigger] evs[j].x.lt_spec(evs[best as int].x),
            decreases self.events@.len() - k,
        {
            if self.events[k].x.lt(&self.events[best].x) {
                proof {
                    assert forall|j: int| 0 <= j < k implies !#[trigger] evs[j].x.lt_spec(
                        evs[k as int].x,
                    ) by {
                        assert(evs[j].x.wf());
                        assert(evs[k as int].x.wf());
                        assert(evs[best as int].x.wf());
                        if evs[j].x.lt_spec(evs[k as int].x) {
                            crate::rat::lemma_rat_lt_trans(
                                evs[j].x,
                                evs[k as int].x,
                                evs[best as int].x,
                            );
                        }
                    }
                }
                best = k;
            }
            k = k + 1;
        }
        let e = self.events.remove(best);
        proof {
            assert forall|j: int| 0 <= j < self.events@.len() implies exists|i2: int|
                0 <= i2 < evs.len() && #[trigger] self.events@[j] == evs[i2] by {
                if j < best {
                    assert(self.events@[j] == evs[j]);
                } else {
                    assert(self.events@[j] == evs[j + 1]);
                }
            }
        }
        Some(e)
    }
}

} // verus!
