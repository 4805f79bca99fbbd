//! The button that copies the ticket, and says so for a while.

use vstd::prelude::*;

verus! {

/// The button that copies the ticket.
pub struct CopyButton {
    /// Whether the ticket was copied a moment ago.
    pub copied: bool,
}

impl CopyButton {
    /// A button that was not pressed yet.
    pub fn new() -> (r: CopyButton)
        ensures
            !r.copied,
    {
        CopyButton { copied: false }
    }

    /// What the button says.
    pub fn label(&self) -> (r: &'static str)
        ensures
            r@ == (if self.copied {
                "Скопировано"@
            } else {
                "Скопировать"@
            }),
    {
        if self.copied {
            "Скопировано"
        } else {
            "Скопировать"
        }
    }

    /// Takes note of whether the button was clicked, and tells whether to copy the ticket now, and
    /// wait anew. While it says that the ticket was copied, clicks do nothing.
    pub fn press(&mut self, clicked: bool) -> (r: bool)
        ensures
            r == (clicked && !old(self).copied),
            final(self).copied == (clicked || old(self).copied),
    {
        if clicked && !self.copied {
            self.copied = true;
            true
        } else {
            false
        }
    }

    /// Takes note of the time: `expired` tells whether the wait since the last copy is over. Tells
    /// whether the window has to be drawn again, as it has to be until the wait is over and once
    /// after.
    pub fn tick(&mut self, expired: bool) -> (r: bool)
        ensures
            r == old(self).copied,
            final(self).copied == (old(self).copied && !expired),
    {
        if self.copied {
            if expired {
                self.copied = false;
            }
            true
        } else {
            false
        }
    }
}

} // verus!
