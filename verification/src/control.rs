//! The cycle of the daemon: every fan is served once, in the configured
//! order, then the daemon sleeps, then the cache of readings is invalidated,
//! and the next cycle begins. How a fan's formula or its actuator fared has
//! no say in what comes next.

use vstd::prelude::*;

verus! {

/// What the daemon does next.
#[derive(Clone, Copy, Debug, PartialEq, Eq, Structural)]
pub enum Phase {
    /// Evaluate the formula of the fan at this position and drive the fan.
    Serve(usize),
    /// Pause for the configured interval.
    Sleep,
    /// Forget the readings of the cycle.
    Invalidate,
}

/// The phase that follows a phase, with `fans` fans.
pub open spec fn next_phase(fans: nat, phase: Phase) -> Phase {
    match phase {
        Phase::Serve(i) => if i + 1 < fans {
            Phase::Serve((i + 1) as usize)
        } else {
            Phase::Sleep
        },
        Phase::Sleep => Phase::Invalidate,
        Phase::Invalidate => Phase::Serve(0),
    }
}

/// The phase after a number of steps from the start of the first cycle.
pub open spec fn phase_after(fans: nat, steps: nat) -> Phase
    decreases steps,
{
    if steps == 0 {
        Phase::Serve(0)
    } else {
        next_phase(fans, phase_after(fans, (steps - 1) as nat))
    }
}

/// The phase at a place of a cycle: the fans in their order, the pause, the
/// invalidation.
pub open spec fn phase_at(fans: nat, place: nat) -> Phase {
    if place < fans {
        Phase::Serve(place as usize)
    } else if place == fans {
        Phase::Sleep
    } else {
        Phase::Invalidate
    }
}

/// Where the daemon stands in its cycle.
#[derive(Debug)]
pub struct ControlLoop {
    fans: usize,
    phase: Phase,
}

impl ControlLoop {
    /// Number of fans.
    pub closed spec fn fans(&self) -> nat {
        self.fans as nat
    }

    /// What the daemon does next.
    pub closed spec fn phase(&self) -> Phase {
        self.phase
    }

    /// There is a fan, and the fan to serve is one of them.
    pub open spec fn wf(&self) -> bool {
        &&& self.fans() > 0
        &&& self.phase() matches Phase::Serve(i) ==> i < self.fans()
    }

    /// The start of the first cycle. Without a fan there is nothing to run.
    pub fn new(fans: usize) -> (control: Option<Self>)
        ensures
            fans == 0 <==> control is None,
            control matches Some(c) ==> c.wf() && c.fans() == fans && c.phase() == Phase::Serve(0),
    {
        if fans == 0 {
            None
        } else {
            Some(ControlLoop { fans, phase: Phase::Serve(0) })
        }
    }

    /// What the daemon does next.
    pub fn current(&self) -> (phase: Phase)
        ensures
            phase == self.phase(),
    {
        self.phase
    }

    /// Moves on to the next phase, whatever came of this one.
    pub fn advance(&mut self)
        requires
            old(self).wf(),
        ensures
            final(self).wf(),
            final(self).fans() == old(self).fans(),
            final(self).phase() == next_phase(old(self).fans(), old(self).phase()),
    {
        self.phase = match self.phase {
            Phase::Serve(i) => if i + 1 < self.fans {
                Phase::Serve(i + 1)
            } else {
                Phase::Sleep
            },
            Phase::Sleep => Phase::Invalidate,
            Phase::Invalidate => Phase::Serve(0),
        };
    }
}

/// A cycle has as many steps as there are fans, and two more. Within each
/// cycle the fans are served strictly in their order, each once; the pause
/// follows the last fan; and the readings are invalidated once, after the
/// pause and before the first fan of the next cycle.
pub proof fn lemma_cycle_order(fans: nat, cycle: nat, place: nat)
    requires
        fans > 0,
        fans <= usize::MAX,
        place < fans + 2,
    ensures
        phase_after(fans, cycle * (fans + 2) + place) == phase_at(fans, place),
    decreases cycle, place,
{
    let steps = cycle * (fans + 2) + place;
    if place > 0 {
        lemma_cycle_order(fans, cycle, (place - 1) as nat);
        assert(steps - 1 == cycle * (fans + 2) + (place - 1));
    } else if cycle > 0 {
        lemma_cycle_order(fans, (cycle - 1) as nat, fans + 1);
        assert(steps - 1 == (cycle - 1) * (fans + 2) + (fans + 1)) by (nonlinear_arith)
            requires
                steps == cycle * (fans + 2),
                cycle > 0,
        ;
    } else {
        assert(steps == 0) by (nonlinear_arith)
            requires
                steps == cycle * (fans + 2) + place,
                cycle == 0,
                place == 0,
        ;
    }
}

} // verus!
