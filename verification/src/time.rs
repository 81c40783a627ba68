//! Simulation time.

use vstd::prelude::*;

verus! {

/// A point on the simulation's time line, or the span between two of them,
/// counted in whole ticks since the simulation began.
#[derive(Clone, Copy, Debug, PartialEq, Eq, Structural, Hash)]
pub struct Duration {
    ticks: u64,
}

impl Duration {
    /// The number of ticks, as a mathematical integer.
    pub closed spec fn ticks(self) -> nat {
        self.ticks as nat
    }

    /// The start of the time line, and the empty span.
    pub fn zero() -> (d: Duration)
        ensures
            d.ticks() == 0,
    {
        Duration { ticks: 0 }
    }

    pub fn from_ticks(ticks: u64) -> (d: Duration)
        ensures
            d.ticks() == ticks,
    {
        Duration { ticks }
    }

    pub fn to_ticks(&self) -> (t: u64)
        ensures
            t == self.ticks(),
    {
        self.ticks
    }

    /// `self < other` on the time line.
    pub fn is_before(&self, other: Duration) -> (b: bool)
        ensures
            b == (self.ticks() < other.ticks()),
    {
        self.ticks < other.ticks
    }

    /// The span from `earlier` to `self`.
    pub fn since(&self, earlier: Duration) -> (d: Duration)
        requires
            earlier.ticks() <= self.ticks(),
        ensures
            d.ticks() == self.ticks() - earlier.ticks(),
    {
        Duration { ticks: self.ticks - earlier.ticks }
    }

    /// A tick count fits in 64 bits.
    pub proof fn lemma_ticks_bounded(self)
        ensures
            self.ticks() <= u64::MAX,
    {
    }

    /// Two times with the same tick count are the same time.
    pub proof fn lemma_ticks_injective(a: Duration, b: Duration)
        requires
            a.ticks() == b.ticks(),
        ensures
            a == b,
    {
    }
}

} // verus!
