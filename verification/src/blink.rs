//! The blinking cursor's clock.

use vstd::prelude::*;

verus! {

/// Half a blink, in nanoseconds.
pub const BLINK_INTERVAL: u64 = 500_000_000;

/// Whether the cursor is shown, and when it next changes while it blinks.
#[derive(Debug, Clone, Copy, PartialEq, Eq, Structural)]
pub struct Blink {
    pub on: bool,
    pub next: Option<u64>,
}

/// What the event loop does next.
#[derive(Debug, Clone, Copy, PartialEq, Eq, Structural)]
pub struct Tick {
    /// The focused pane changed and is drawn again.
    pub redraw: bool,
    /// Wake at this time; without one, wait for an event.
    pub until: Option<u64>,
}

impl Blink {
    /// When the cursor next changes, given the time: a clock that does not run is started.
    pub open spec fn due(self, now: u64) -> int {
        match self.next {
            Some(t) => t as int,
            None => now + BLINK_INTERVAL,
        }
    }

    /// The clock after the event loop looked at it. While the cursor blinks it changes whenever it
    /// is due, half a blink after the last look that changed it. While it does not blink it is
    /// shown, and the clock stands still.
    pub open spec fn ticked(self, blinks: bool, now: u64) -> Blink {
        if !blinks {
            Blink { on: true, next: None }
        } else if now >= self.due(now) {
            Blink { on: !self.on, next: Some((now + BLINK_INTERVAL) as u64) }
        } else {
            Blink { on: self.on, next: Some(self.due(now) as u64) }
        }
    }

    /// Shown, with the clock standing still.
    pub fn new() -> (b: Blink)
        ensures
            b == (Blink { on: true, next: None }),
    {
        Blink { on: true, next: None }
    }

    /// Look at the clock before waiting.
    pub fn tick(&mut self, blinks: bool, now: u64) -> (t: Tick)
        requires
            now + BLINK_INTERVAL <= u64::MAX,
        ensures
            *final(self) == old(self).ticked(blinks, now),
            t.redraw == (final(self).on != old(self).on),
            t.until == final(self).next,
    {
        let was: bool = self.on;
        if blinks {
            let next: u64 = match self.next {
                Some(t) => t,
                None => now + BLINK_INTERVAL,
            };
            if now >= next {
                self.on = !self.on;
                self.next = Some(now + BLINK_INTERVAL);
            } else {
                self.next = Some(next);
            }
        } else {
            self.on = true;
            self.next = None;
        }
        Tick { redraw: self.on != was, until: self.next }
    }

    /// Keep the cursor shown and start the cycle again: something was typed, or the focused pane
    /// has new output.
    pub fn reset(&mut self)
        ensures
            *final(self) == (Blink { on: true, next: None }),
    {
        self.on = true;
        self.next = None;
    }
}

/// Whether a cursor blinks: by its style, and only while it is visible.
pub fn cursor_blinks(blinking: bool, visible: bool) -> (b: bool)
    ensures
        b == (blinking && visible),
{
    blinking && visible
}

/// The cursor of a pane is drawn unless the pane is focused and in the dark half of a blink.
pub fn shows_cursor(focused: bool, blink_on: bool) -> (b: bool)
    ensures
        b == !(focused && !blink_on),
{
    !(focused && !blink_on)
}

/// A cursor that does not blink is shown and costs no wakeups.
pub proof fn a_steady_cursor_is_idle(b: Blink, now: u64)
    ensures
        b.ticked(false, now).on,
        b.ticked(false, now).next is None,
        b.ticked(false, now).ticked(false, now) == b.ticked(false, now),
{
}

/// A blinking cursor keeps its state until it is due, and then changes it exactly once.
pub proof fn a_blink_lasts_its_interval(b: Blink, now: u64, later: u64)
    requires
        b.next is Some,
        now >= b.next->0,
        now <= later,
        now + BLINK_INTERVAL <= u64::MAX,
    ensures
        b.ticked(true, now).on == !b.on,
        later < now + BLINK_INTERVAL ==> b.ticked(true, now).ticked(true, later) == b.ticked(
            true,
            now,
        ),
        later >= now + BLINK_INTERVAL ==> b.ticked(true, now).ticked(true, later).on == b.on,
{
}

} // verus!
