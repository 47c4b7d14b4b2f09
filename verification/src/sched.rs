//! Fixed-timestep scheduling: the decision, taken once per loop iteration,
//! whether a tick is due (and whether there is time left to render after it)
//! or how long to sleep until the next deadline. Times are milliseconds on a
//! monotonic clock; reading the clock and sleeping are the caller's I/O.

use vstd::prelude::*;

verus! {

/// What the loop should do with this iteration.
#[derive(Clone, Copy, Debug, PartialEq, Eq, Structural)]
pub enum LoopStep {
    /// A tick is due: drain the input and update. `render` says whether the
    /// iteration still falls before the new deadline, so a frame may be
    /// drawn without eating into the next tick.
    Tick { render: bool },
    /// Nothing is due: sleep for `duration` milliseconds, then poll again.
    Sleep { duration: u64 },
}

/// A catch-up-free fixed-timestep scheduler. The deadline advances by a
/// constant tick from a running counter rather than from the current time,
/// so transient delays do not accumulate drift; a severely late poll still
/// yields at most one tick, so missed ticks are skipped, not repeated.
pub struct Scheduler {
    pub next_deadline: u64,
    pub tick: u64,
}

impl Scheduler {
    /// A scheduler whose first tick is due at `now`.
    pub fn new(now: u64, tick: u64) -> (r: Scheduler)
        ensures
            r.next_deadline == now,
            r.tick == tick,
    {
        Scheduler { next_deadline: now, tick }
    }

    /// One poll at monotonic time `now`. At or past the deadline the
    /// deadline moves forward by exactly one tick and a tick is due,
    /// rendered only if `now` still lies before the new deadline; before the
    /// deadline the scheduler is unchanged and the caller sleeps out the
    /// exact remainder.
    pub fn poll(&mut self, now: u64) -> (r: LoopStep)
        requires
            old(self).next_deadline + old(self).tick <= u64::MAX,
        ensures
            final(self).tick == old(self).tick,
            now >= old(self).next_deadline ==> final(self).next_deadline == old(
                self,
            ).next_deadline + old(self).tick && r == (LoopStep::Tick {
                render: now < old(self).next_deadline + old(self).tick,
            }),
            now < old(self).next_deadline ==> *final(self) == *old(self) && r == (LoopStep::Sleep {
                duration: (old(self).next_deadline - now) as u64,
            }),
    {
        if now >= self.next_deadline {
            self.next_deadline = self.next_deadline + self.tick;
            LoopStep::Tick { render: now < self.next_deadline }
        } else {
            LoopStep::Sleep { duration: self.next_deadline - now }
        }
    }
}

} // verus!
