use vstd::prelude::*;

verus! {

/// Frames a shape stays fully shown before it starts to vanish.
pub const HOLD_FRAMES: u32 = 300;

/// The easing curve `1 / (1 + 500 e^(-x/2))` exceeds `1 - 1e-8` exactly when
/// the integer `x` is at least this value; a cascade over `n` points is
/// therefore complete once the phase timer reaches `3 n + SETTLE_FRAMES`.
pub const SETTLE_FRAMES: u32 = 50;

/// Whether a pop-in or pop-out cascade over `n` points is finished at `timer`.
pub open spec fn cascade_done(timer: int, n: int) -> bool {
    timer >= 3 * n + SETTLE_FRAMES
}

/// Whether `n` points leave room for a whole cascade in a `u32` timer.
pub open spec fn fits_cascade(n: int) -> bool {
    3 * n + SETTLE_FRAMES <= u32::MAX
}

#[derive(Clone, Copy, Debug, PartialEq, Eq, Structural)]
pub enum Phase {
    Appearing { timer: u32 },
    Holding { timer: u32 },
    Disappearing { timer: u32 },
}

/// The phase that follows `p` after one frame over `n` points.
pub open spec fn next_phase(p: Phase, n: int) -> Phase {
    match p {
        Phase::Appearing { timer } => if cascade_done(timer + 1, n) {
            Phase::Holding { timer: 0 }
        } else {
            Phase::Appearing { timer: (timer + 1) as u32 }
        },
        Phase::Holding { timer } => if timer + 1 == HOLD_FRAMES {
            Phase::Disappearing { timer: 0 }
        } else {
            Phase::Holding { timer: (timer + 1) as u32 }
        },
        Phase::Disappearing { timer } => if cascade_done(timer + 1, n) {
            Phase::Appearing { timer: 0 }
        } else {
            Phase::Disappearing { timer: (timer + 1) as u32 }
        },
    }
}

/// Whether the frame that leaves `p` over `n` points ends a pop-out, so that a
/// new shape is due.
pub open spec fn wants_new_shape(p: Phase, n: int) -> bool {
    match p {
        Phase::Disappearing { timer } => cascade_done(timer + 1, n),
        _ => false,
    }
}

/// The phase after `k` frames from `p`, over a shape of `n` points.
pub open spec fn phase_after(p: Phase, n: int, k: nat) -> Phase
    decreases k,
{
    if k == 0 {
        p
    } else {
        next_phase(phase_after(p, n, (k - 1) as nat), n)
    }
}

impl Phase {
    /// The timer has not yet reached the end of its phase.
    pub open spec fn wf(self, n: int) -> bool {
        &&& fits_cascade(n)
        &&& match self {
            Phase::Appearing { timer } => !cascade_done(timer as int, n),
            Phase::Holding { timer } => timer < HOLD_FRAMES,
            Phase::Disappearing { timer } => !cascade_done(timer as int, n),
        }
    }

    pub open spec fn timer_of(self) -> u32 {
        match self {
            Phase::Appearing { timer } => timer,
            Phase::Holding { timer } => timer,
            Phase::Disappearing { timer } => timer,
        }
    }

    /// The phase a shape starts in.
    pub fn start() -> (r: Phase)
        ensures
            r == (Phase::Appearing { timer: 0 }),
    {
        Phase::Appearing { timer: 0 }
    }

    /// The frame counter local to the current phase.
    pub fn timer(&self) -> (r: u32)
        ensures
            r == self.timer_of(),
    {
        match self {
            Phase::Appearing { timer } => *timer,
            Phase::Holding { timer } => *timer,
            Phase::Disappearing { timer } => *timer,
        }
    }

    /// Advances the phase by one frame over a shape of `n` points. Returns
    /// `true` when a pop-out has just finished and a new shape is due.
    pub fn advance(&mut self, n: usize) -> (new_shape: bool)
        requires
            old(self).wf(n as int),
        ensures
            *final(self) == next_phase(*old(self), n as int),
            new_shape == wants_new_shape(*old(self), n as int),
            new_shape || final(self).wf(n as int),
    {
        match *self {
            Phase::Appearing { timer } => {
                let t = timer + 1;
                if reveal_complete(t, n) {
                    *self = Phase::Holding { timer: 0 };
                } else {
                    *self = Phase::Appearing { timer: t };
                }
                false
            },
            Phase::Holding { timer } => {
                let t = timer + 1;
                if t == HOLD_FRAMES {
                    *self = Phase::Disappearing { timer: 0 };
                } else {
                    *self = Phase::Holding { timer: t };
                }
                false
            },
            Phase::Disappearing { timer } => {
                let t = timer + 1;
                if reveal_complete(t, n) {
                    *self = Phase::Appearing { timer: 0 };
                    true
                } else {
                    *self = Phase::Disappearing { timer: t };
                    false
                }
            },
        }
    }
}

/// Whether the staggered reveal (or removal) of `n` points is over at `timer`.
pub fn reveal_complete(timer: u32, n: usize) -> (r: bool)
    ensures
        r == cascade_done(timer as int, n as int),
{
    (timer as u128) >= 3 * (n as u128) + (SETTLE_FRAMES as u128)
}

/// Starting to appear over `n` points, the shape stays in the appearing phase
/// for exactly `3 n + 50` frames and is held from then on.
pub proof fn lemma_reveal_timing(n: nat, k: nat)
    requires
        fits_cascade(n as int),
        k <= 3 * n + SETTLE_FRAMES,
    ensures
        phase_after(Phase::Appearing { timer: 0 }, n as int, k) == if k < 3 * n
            + SETTLE_FRAMES {
            Phase::Appearing { timer: k as u32 }
        } else {
            Phase::Holding { timer: 0 }
        },
    decreases k,
{
    if k > 0 {
        lemma_reveal_timing(n, (k - 1) as nat);
    }
}

/// A held shape starts to vanish after exactly `HOLD_FRAMES` frames, not
/// before.
pub proof fn lemma_hold_duration(n: nat, k: nat)
    requires
        k <= HOLD_FRAMES,
    ensures
        phase_after(Phase::Holding { timer: 0 }, n as int, k) == if k < HOLD_FRAMES {
            Phase::Holding { timer: k as u32 }
        } else {
            Phase::Disappearing { timer: 0 }
        },
    decreases k,
{
    if k > 0 {
        lemma_hold_duration(n, (k - 1) as nat);
    }
}

/// Removing a shape of `n` points takes exactly `3 n + 50` frames, and only
/// the last of them asks for a new shape.
pub proof fn lemma_removal_timing(n: nat, k: nat)
    requires
        fits_cascade(n as int),
        k < 3 * n + SETTLE_FRAMES,
    ensures
        phase_after(Phase::Disappearing { timer: 0 }, n as int, k) == (Phase::Disappearing {
            timer: k as u32,
        }),
        wants_new_shape(Phase::Disappearing { timer: k as u32 }, n as int) == (k + 1 == 3
            * n + SETTLE_FRAMES),
    decreases k,
{
    if k > 0 {
        lemma_removal_timing(n, (k - 1) as nat);
    }
}

} // verus!
