use vstd::prelude::*;

use crate::line::Line;
use crate::line_with_ord::{below, below_spec, key_eq, key_eq_spec, LineWithOrd};
use crate::rat::Rat;

verus! {

/// A segment the sweep can hold: endpoints on the grid and not vertical.
pub open spec fn sweepable(l: Line) -> bool {
    &&& l.p1.in_range()
    &&& l.p2.in_range()
    &&& l.p1.x != l.p2.x
}

/// The status structure: the segments currently intersected by the sweep
/// line, ordered by their y-value at the sweep position with a slope
/// tie-break.  Entries with equal derived keys count as one element, as in
/// an ordered set.  The order among entries agrees with the geometric
/// vertical order only while every crossing to the left of the sweep
/// position has been handled; the engine repairs it at each crossing by
/// removing and re-inserting the two segments involved.
pub struct SweepStatus {
    pub entries: Vec<LineWithOrd>,
}

impl SweepStatus {
    /// Every stored segment is fit for sweeping.
    pub open spec fn wf(self) -> bool {
        forall|i: int| 0 <= i < self.entries@.len() ==> sweepable(#[trigger] self.entries@[i].line)
    }

    /// An empty status structure.
    pub fn new() -> (r: SweepStatus)
        ensures
            r.entries@ =~= Seq::<LineWithOrd>::empty(),
            r.wf(),
    {
        SweepStatus { entries: Vec::new() }
    }

    /// Number of stored segments.
    pub fn len(&self) -> (r: usize)
        ensures
            r == self.entries@.len(),
    {
        self.entries.len()
    }

    /// The entry at `i`.
    pub fn get(&self, i: usize) -> (r: LineWithOrd)
        requires
            i < self.entries@.len(),
        ensures
            r == self.entries@[i as int],
    {
        self.entries[i]
    }

    /// Find where `line` belongs in the derived order at abscissa `x`: the
    /// first index whose entry is not strictly below `line`, and whether
    /// that entry has the same derived key as `line`.
    pub fn locate(&self, line: &Line, x: &Rat) -> (r: (usize, bool))
        requires
            self.wf(),
            sweepable(*line),
            x.pos_wf(),
        ensures
            r.0 <= self.entries@.len(),
            forall|i: int| 0 <= i < r.0 ==> below_spec(#[trigger] self.entries@[i].line, *line, *x),
            r.0 < self.entries@.len() ==> !below_spec(self.entries@[r.0 as int].line, *line, *x),
            r.1 == (r.0 < self.entries@.len() && key_eq_spec(
                self.entries@[r.0 as int].line,
                *line,
                *x,
            )),
    {
        let mut i: usize = 0;
        while i < self.entries.len()
            invariant
                self.wf(),
                sweepable(*line),
                x.pos_wf(),
                i <= self.entries@.len(),
                forall|j: int|
                    0 <= j < i ==> below_spec(#[trigger] self.entries@[j].line, *line, *x),
            decreases self.entries@.len() - i,
        {
            if !below(&self.entries[i].line, line, x) {
                let eq = key_eq(&self.entries[i].line, line, x);
                return (i, eq);
            }
            i = i + 1;
        }
        (i, false)
    }

    /// Insert `seg` at its position in the derived order at its own
    /// abscissa.  When an entry with the same derived key is already
    /// present the structure is left unchanged, as in an ordered set, and
    /// the index of that entry is returned.
    pub fn insert(&mut self, seg: LineWithOrd) -> (r: (usize, bool))
        requires
            old(self).wf(),
            sweepable(seg.line),
            seg.sweep_x.pos_wf(),
        ensures
            final(self).wf(),
            r.0 <= old(self).entries@.len(),
            forall|i: int|
                0 <= i < r.0 ==> below_spec(
                    #[trigger] old(self).entries@[i].line,
                    seg.line,
                    seg.sweep_x,
                ),
            r.0 < old(self).entries@.len() ==> !below_spec(
                old(self).entries@[r.0 as int].line,
                seg.line,
                seg.sweep_x,
            ),
            r.1 ==> final(self).entries@ == old(self).entries@.insert(r.0 as int, seg),
            r.1 ==> !(r.0 < old(self).entries@.len() && key_eq_spec(
                old(self).entries@[r.0 as int].line,
                seg.line,
                seg.sweep_x,
            )),
            !r.1 ==> final(self).entries@ == old(self).entries@ && r.0 < old(self).entries@.len()
                && key_eq_spec(old(self).entries@[r.0 as int].line, seg.line, seg.sweep_x),
    {
        let x = seg.sweep_x;
        let (i, found) = self.locate(&seg.line, &x);
        if found {
            return (i, false);
        }
        self.entries.insert(i, seg);
        (i, true)
    }

    /// Remove the entry at `i`.
    pub fn remove_at(&mut self, i: usize)
        requires
            i < old(self).entries@.len(),
            old(self).wf(),
        ensures
            final(self).wf(),
            final(self).entries@ == old(self).entries@.remove(i as int),
    {
        self.entries.remove(i);
    }
}

} // verus!
