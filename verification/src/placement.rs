//! Where the window goes when it first appears.

use vstd::prelude::*;

verus! {

/// Whether the window was put in the middle of the monitor.
pub struct Placement {
    pub centered: bool,
}

impl Placement {
    /// A window that was not placed yet.
    pub fn new() -> (r: Placement)
        ensures
            !r.centered,
    {
        Placement { centered: false }
    }

    /// Tells whether to put the window in the middle now: once, as soon as the monitor is known.
    pub fn center_once(&mut self, monitor_known: bool) -> (r: bool)
        ensures
            r == (monitor_known && !old(self).centered),
            final(self).centered == (old(self).centered || monitor_known),
    {
        if monitor_known && !self.centered {
            self.centered = true;
            true
        } else {
            false
        }
    }
}

} // verus!
