use vstd::prelude::*;
use crate::phase::{next_phase, wants_new_shape, Phase};
use crate::selector::{PointSet, ShapeSelector};

verus! {

/// The integer state of one running animation: the frame counter, the phase
/// of the current shape, the shape's lattice, and the memory of which shape
/// was shown last.
#[derive(Debug)]
pub struct Session {
    time: u32,
    phase: Phase,
    points: PointSet,
    selector: ShapeSelector,
}

impl Session {
    pub closed spec fn time_of(&self) -> u32 {
        self.time
    }

    pub closed spec fn phase_of(&self) -> Phase {
        self.phase
    }

    pub closed spec fn points_of(&self) -> &PointSet {
        &self.points
    }

    pub closed spec fn selector_of(&self) -> &ShapeSelector {
        &self.selector
    }

    /// The phase timer is inside its phase for the current shape, and the
    /// selector remembers the current shape.
    pub open spec fn wf(&self) -> bool {
        &&& self.phase_of().wf(self.points_of().len_of() as int)
        &&& self.selector_of().wf()
        &&& self.selector_of().last_of() == Some(self.points_of().kind_of())
        &&& self.points_of().len_of() <= 136
    }

    /// Starts an animation on a random first shape, appearing from frame 0.
    /// `selector` carries the memory of earlier animations.
    pub fn new(selector: ShapeSelector) -> (r: Session)
        requires
            selector.wf(),
        ensures
            r.wf(),
            r.time_of() == 0,
            r.phase_of() == (Phase::Appearing { timer: 0 }),
            selector.last_of() != Some(r.points_of().kind_of()),
            exists|coin: bool| r.points_of().generated_as(r.points_of().kind_of(), coin),
    {
        let mut selector = selector;
        let points = selector.next();
        Session { time: 0, phase: Phase::start(), points, selector }
    }

    /// Advances one frame: the counter wraps, the phase moves on, and when a
    /// pop-out finishes a different shape replaces the current one. Returns
    /// whether the shape changed.
    pub fn tick(&mut self) -> (changed: bool)
        requires
            old(self).wf(),
        ensures
            final(self).wf(),
            final(self).time_of() == old(self).time_of().wrapping_add(1),
            changed == wants_new_shape(old(self).phase_of(), old(self).points_of().len_of() as int),
            !changed ==> final(self).phase_of() == next_phase(
                old(self).phase_of(),
                old(self).points_of().len_of() as int,
            ),
            !changed ==> final(self).points_of() == old(self).points_of(),
            changed ==> final(self).phase_of() == (Phase::Appearing { timer: 0 }),
            changed ==> final(self).points_of().kind_of() != old(self).points_of().kind_of(),
            changed ==> exists|coin: bool|
                final(self).points_of().generated_as(final(self).points_of().kind_of(), coin),
    {
        self.time = self.time.wrapping_add(1);
        let n = self.points.len();
        let changed = self.phase.advance(n);
        if changed {
            self.points = self.selector.next();
        }
        changed
    }

    /// The frame counter.
    pub fn time(&self) -> (r: u32)
        ensures
            r == self.time_of(),
    {
        self.time
    }

    /// The phase of the current shape.
    pub fn phase(&self) -> (r: Phase)
        ensures
            r == self.phase_of(),
    {
        self.phase
    }

    /// The memory of which shape was shown last, to carry over to a later
    /// animation.
    pub fn selector(&self) -> (r: &ShapeSelector)
        ensures
            r == self.selector_of(),
    {
        &self.selector
    }

    /// The current shape's lattice.
    pub fn points(&self) -> (r: &PointSet)
        ensures
            r == self.points_of(),
    {
        &self.points
    }
}

} // verus!
