//! When the results scrollbar is shown: for a while after the user scrolls
//! with the mouse or reaches the last result with the keyboard, and only
//! while the results overflow. Times are readings of a monotonic clock in
//! nanoseconds.
use vstd::prelude::*;

verus! {

/// How long a reveal lasts: 3 s.
pub const SCROLLBAR_VISIBLE_FOR_NANOS: u64 = 3_000_000_000;

/// The reveal deadline and whether the scrollbar was shown at the last tick.
#[derive(Debug)]
pub struct ScrollbarReveal {
    reveal_until: Option<u64>,
    was_visible_last_tick: bool,
}

impl ScrollbarReveal {
    pub closed spec fn deadline(&self) -> Option<u64> {
        self.reveal_until
    }

    pub closed spec fn was_visible(&self) -> bool {
        self.was_visible_last_tick
    }

    /// Whether the reveal still holds at `now`.
    pub open spec fn revealed_at(&self, now: u64) -> bool {
        match self.deadline() {
            Some(d) => now <= d,
            None => false,
        }
    }

    /// Nothing revealed.
    pub fn new() -> (r: Self)
        ensures
            r.deadline() is None,
            !r.was_visible(),
    {
        ScrollbarReveal { reveal_until: None, was_visible_last_tick: false }
    }

    /// Reveals the scrollbar from `now` for `SCROLLBAR_VISIBLE_FOR_NANOS`.
    pub fn reveal_temporarily(&mut self, now: u64)
        requires
            now <= u64::MAX - SCROLLBAR_VISIBLE_FOR_NANOS,
        ensures
            final(self).deadline() == Some((now + SCROLLBAR_VISIBLE_FOR_NANOS) as u64),
            final(self).was_visible() == old(self).was_visible(),
    {
        self.reveal_until = Some(now + SCROLLBAR_VISIBLE_FOR_NANOS);
    }

    /// Forgets every reveal.
    pub fn reset(&mut self)
        ensures
            final(self).deadline() is None,
            !final(self).was_visible(),
    {
        self.reveal_until = None;
        self.was_visible_last_tick = false;
    }

    /// Whether the reveal holds at `now`.
    pub fn is_revealed_at(&self, now: u64) -> (r: bool)
        ensures
            r == self.revealed_at(now),
    {
        match self.reveal_until {
            Some(d) => now <= d,
            None => false,
        }
    }

    /// Whether the scrollbar is shown at `now`: revealed, and the results
    /// overflow their viewport.
    pub fn should_show(&self, now: u64, scrollable: bool) -> (r: bool)
        ensures
            r == (self.revealed_at(now) && scrollable),
    {
        self.is_revealed_at(now) && scrollable
    }

    /// A keyboard move from `previous_rank` to `selected_rank` among `total`
    /// results reveals the scrollbar when it lands on the last result from
    /// elsewhere; otherwise nothing changes.
    pub fn reveal_for_keyboard_end(&mut self, selected_rank: usize, previous_rank: usize, total: usize, now: u64)
        requires
            now <= u64::MAX - SCROLLBAR_VISIBLE_FOR_NANOS,
        ensures
            (total > 0 && selected_rank == total - 1 && previous_rank != total - 1) ==> final(self).deadline()
                == Some((now + SCROLLBAR_VISIBLE_FOR_NANOS) as u64),
            !(total > 0 && selected_rank == total - 1 && previous_rank != total - 1) ==> final(self).deadline()
                == old(self).deadline(),
            final(self).was_visible() == old(self).was_visible(),
    {
        if total == 0 {
            return;
        }
        let last_rank = total - 1;
        if selected_rank == last_rank && previous_rank != last_rank {
            self.reveal_temporarily(now);
        }
    }

    /// Records whether the scrollbar is shown at this tick; the result says
    /// whether that changed since the last tick (the view then scrolls back
    /// to its offset so the layout change does not move it).
    pub fn visibility_tick(&mut self, visible_now: bool) -> (changed: bool)
        ensures
            changed == (visible_now != old(self).was_visible()),
            final(self).was_visible() == visible_now,
            final(self).deadline() == old(self).deadline(),
    {
        let was = self.was_visible_last_tick;
        self.was_visible_last_tick = visible_now;
        visible_now != was
    }
}

/// A reveal lasts exactly its time: shown up to the deadline, hidden after.
pub proof fn lemma_reveal_lasts(r: &ScrollbarReveal, at: u64, now: u64)
    requires
        r.deadline() == Some((at + SCROLLBAR_VISIBLE_FOR_NANOS) as u64),
        at <= u64::MAX - SCROLLBAR_VISIBLE_FOR_NANOS,
    ensures
        r.revealed_at(now) <==> now <= at + SCROLLBAR_VISIBLE_FOR_NANOS,
{
}

} // verus!
