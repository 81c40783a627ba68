//! The panel that shows the log.
//!
//! The panel is either hidden or shown. The lines themselves, and the
//! scroller that shows them, are the caller's; this is the switch.

use vstd::prelude::*;
use crate::text::joined;

verus! {

pub struct DisplayLogs {
    active: bool,
}

impl DisplayLogs {
    pub closed spec fn is_active(&self) -> bool {
        self.active
    }

    pub fn new() -> (d: DisplayLogs)
        ensures
            !d.is_active(),
    {
        DisplayLogs { active: false }
    }

    /// Takes one event. While the panel is hidden, `answer` says whether the
    /// key that shows it was pressed; while it is shown, whether the scroller
    /// is done. Returns whether the panel is shown afterwards.
    pub fn event(&mut self, answer: bool) -> (shown: bool)
        ensures
            final(self).is_active() == (if old(self).is_active() {
                !answer
            } else {
                answer
            }),
            shown == final(self).is_active(),
    {
        if !self.active {
            if answer {
                self.active = true;
                return true;
            } else {
                return false;
            }
        }
        if answer {
            self.active = false;
        }
        self.active
    }

    /// Whether the scroller is to be drawn.
    pub fn draw(&self) -> (shown: bool)
        ensures
            shown == self.is_active(),
    {
        self.active
    }
}

/// One line of the log: level and target in square brackets, then the
/// message.
pub fn log_line(level: &str, target: &str, message: &str) -> (line: String)
    ensures
        line@ == "["@ + level@ + "] ["@ + target@ + "] "@ + message@,
{
    let s = joined("[", level);
    let s = joined(s.as_str(), "] [");
    let s = joined(s.as_str(), target);
    let s = joined(s.as_str(), "] ");
    joined(s.as_str(), message)
}

} // verus!
