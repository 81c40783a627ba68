//! A running summary of recorded durations, for observation only.

use vstd::prelude::*;
use crate::text::{decimal, decimal_text, joined};
use crate::time::Duration;

verus! {

/// What a histogram has recorded: how many spans, the least and the greatest
/// of them, and their sum, all in ticks. `count` stops at `u64::MAX` and
/// `total` at `u128::MAX`.
pub struct Tally {
    pub count: nat,
    pub least: nat,
    pub greatest: nat,
    pub total: nat,
}

impl Tally {
    pub open spec fn empty() -> Tally {
        Tally { count: 0, least: 0, greatest: 0, total: 0 }
    }

    /// The tally after one more span of `ticks`.
    pub open spec fn record(self, ticks: nat) -> Tally {
        Tally {
            count: if self.count < u64::MAX {
                self.count + 1
            } else {
                self.count
            },
            least: if self.count == 0 || ticks < self.least {
                ticks
            } else {
                self.least
            },
            greatest: if self.count == 0 || ticks > self.greatest {
                ticks
            } else {
                self.greatest
            },
            total: if self.total + ticks <= u128::MAX {
                self.total + ticks
            } else {
                u128::MAX as nat
            },
        }
    }

    /// The mean span, rounded down; 0 where nothing was recorded.
    pub open spec fn mean(self) -> nat {
        if self.count == 0 {
            0
        } else {
            self.total / self.count
        }
    }

    /// The summary in words.
    pub open spec fn text(self) -> Seq<char> {
        if self.count == 0 {
            "no data yet"@
        } else {
            decimal_text(self.count) + " count, min "@ + decimal_text(self.least) + ", mean "@
                + decimal_text(self.mean()) + ", max "@ + decimal_text(self.greatest)
        }
    }
}

pub struct DurationHistogram {
    count: u64,
    min: u64,
    max: u64,
    total: u128,
}

impl View for DurationHistogram {
    type V = Tally;

    closed spec fn view(&self) -> Tally {
        Tally {
            count: self.count as nat,
            least: self.min as nat,
            greatest: self.max as nat,
            total: self.total as nat,
        }
    }
}

impl DurationHistogram {
    pub fn new() -> (h: DurationHistogram)
        ensures
            h@ == Tally::empty(),
    {
        DurationHistogram { count: 0, min: 0, max: 0, total: 0 }
    }

    /// Records one span.
    pub fn add(&mut self, span: Duration)
        ensures
            final(self)@ == old(self)@.record(span.ticks()),
    {
        let ticks: u64 = span.to_ticks();
        if self.count == 0 || ticks < self.min {
            self.min = ticks;
        }
        if self.count == 0 || ticks > self.max {
            self.max = ticks;
        }
        self.count = self.count.saturating_add(1);
        self.total = self.total.saturating_add(ticks as u128);
    }

    /// The summary in words: "no data yet", or the count, the least, the mean
    /// and the greatest span.
    pub fn describe(&self) -> (s: String)
        ensures
            s@ == self@.text(),
    {
        if self.count == 0 {
            return "no data yet".to_string();
        }
        let mean: u128 = self.total / (self.count as u128);
        let s = decimal(self.count as u128);
        let s = joined(s.as_str(), " count, min ");
        let s = joined(s.as_str(), decimal(self.min as u128).as_str());
        let s = joined(s.as_str(), ", mean ");
        let s = joined(s.as_str(), decimal(mean).as_str());
        let s = joined(s.as_str(), ", max ");
        let s = joined(s.as_str(), decimal(self.max as u128).as_str());
        s
    }
}

} // verus!
