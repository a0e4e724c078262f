//! When the launcher window is shown or hidden, and what the windowing side
//! is asked to do about it. Windows are named by numbers the launcher hands
//! out; times are readings of a monotonic clock in nanoseconds.
use vstd::prelude::*;

verus! {

/// What the windowing side is asked to do.
#[derive(Debug, Clone, Copy, PartialEq, Eq, Structural)]
pub enum WindowAction {
    /// Nothing.
    Nothing,
    /// Open a launcher surface named `id`, first removing `remove` if any.
    CreateSurface { id: u64, remove: Option<u64> },
    /// Remove the window `id`.
    RemoveWindow(u64),
}

/// The outcome of an event: whether the launcher's per-showing state
/// (query, selection, expansion, suppressions) is to be reset, and the
/// window action.
#[derive(Debug, Clone, Copy, PartialEq, Eq, Structural)]
pub struct WindowChange {
    pub reset: bool,
    pub action: WindowAction,
}

/// A window event the launcher reacts to.
#[derive(Debug, Clone, Copy, PartialEq, Eq, Structural)]
pub enum WindowEvent {
    Focused,
    Unfocused,
    CloseRequested,
    Other,
}

/// The launcher's visibility as plain values: whether it is shown, its
/// window, until when losing focus is ignored (right after showing, focus
/// may still be moving), and the next window name to hand out.
pub struct VisibilityModel {
    pub shown: bool,
    pub window: Option<u64>,
    pub guard_until: Option<u64>,
    pub next_id: u64,
}

/// No reset and nothing to do.
pub open spec fn no_change() -> WindowChange {
    WindowChange { reset: false, action: WindowAction::Nothing }
}

/// Whether losing focus at `now` is ignored.
pub open spec fn ignores_unfocus_at(m: VisibilityModel, now: u64) -> bool {
    match m.guard_until {
        Some(deadline) => now < deadline,
        None => false,
    }
}

/// A new surface in place of the old one: a fresh window name, and the old
/// window, if any, removed.
pub open spec fn recreated(m: VisibilityModel) -> (VisibilityModel, WindowAction) {
    (
        VisibilityModel { window: Some(m.next_id), next_id: m.next_id.wrapping_add(1), ..m },
        WindowAction::CreateSurface { id: m.next_id, remove: m.window },
    )
}

/// Showing at `now`: a shown launcher stays as it is; otherwise its state is
/// reset, losing focus is ignored for `guard` nanoseconds, and a new surface
/// replaces the old one.
pub open spec fn after_show(m: VisibilityModel, now: u64, guard: u64) -> (VisibilityModel, WindowChange) {
    if m.shown {
        (m, no_change())
    } else {
        let (r, action) = recreated(
            VisibilityModel { shown: true, guard_until: Some((now + guard) as u64), ..m },
        );
        (r, WindowChange { reset: true, action })
    }
}

/// Hiding: a hidden launcher stays as it is; otherwise its state is reset,
/// the focus guard dropped, and its window, if any, removed.
pub open spec fn after_hide(m: VisibilityModel) -> (VisibilityModel, WindowChange) {
    if !m.shown {
        (m, no_change())
    } else {
        (
            VisibilityModel { shown: false, window: None, guard_until: None, ..m },
            WindowChange {
                reset: true,
                action: match m.window {
                    Some(id) => WindowAction::RemoveWindow(id),
                    None => WindowAction::Nothing,
                },
            },
        )
    }
}

/// An event of window `id` at `now`: only the shown launcher's window
/// matters; gaining focus ends the focus guard, a close request hides, and
/// losing focus hides unless the guard still holds.
pub open spec fn after_event(m: VisibilityModel, id: u64, event: WindowEvent, now: u64) -> (VisibilityModel, WindowChange) {
    if !(m.window == Some(id) && m.shown) {
        (m, no_change())
    } else {
        match event {
            WindowEvent::Focused => (VisibilityModel { guard_until: None, ..m }, no_change()),
            WindowEvent::Unfocused => if ignores_unfocus_at(m, now) {
                (m, no_change())
            } else {
                after_hide(m)
            },
            WindowEvent::CloseRequested => after_hide(m),
            WindowEvent::Other => (m, no_change()),
        }
    }
}

/// The launcher's window state; see `VisibilityModel`.
#[derive(Debug)]
pub struct LauncherVisibility {
    visible: bool,
    window: Option<u64>,
    ignore_unfocus_until: Option<u64>,
    next_window_id: u64,
}

impl LauncherVisibility {
    pub closed spec fn model(&self) -> VisibilityModel {
        VisibilityModel {
            shown: self.visible,
            window: self.window,
            guard_until: self.ignore_unfocus_until,
            next_id: self.next_window_id,
        }
    }

    /// Hidden, with no window.
    pub fn new() -> (r: Self)
        ensures
            !r.model().shown,
            r.model().window is None,
            r.model().guard_until is None,
    {
        LauncherVisibility { visible: false, window: None, ignore_unfocus_until: None, next_window_id: 0 }
    }

    /// Whether the launcher is shown.
    pub fn is_visible(&self) -> (r: bool)
        ensures
            r == self.model().shown,
    {
        self.visible
    }

    /// Whether `id` names the launcher's window.
    pub fn is_launcher_window(&self, id: u64) -> (r: bool)
        ensures
            r == (self.model().window == Some(id)),
    {
        match self.window {
            Some(w) => w == id,
            None => false,
        }
    }

    /// Whether losing focus at `now` is ignored.
    pub fn should_ignore_unfocus(&self, now: u64) -> (r: bool)
        ensures
            r == ignores_unfocus_at(self.model(), now),
    {
        match self.ignore_unfocus_until {
            Some(deadline) => now < deadline,
            None => false,
        }
    }

    /// Replaces the launcher's surface; see
    /// `recreated`.
    pub fn recreate_surface(&mut self) -> (action: WindowAction)
        ensures
            (final(self).model(), action) == recreated(old(self).model()),
    {
        let previous = self.window;
        let id = self.next_window_id;
        self.next_window_id = self.next_window_id.wrapping_add(1);
        self.window = Some(id);
        WindowAction::CreateSurface { id, remove: previous }
    }

    /// Shows the launcher at `now`; see `after_show`.
    pub fn show_launcher(&mut self, now: u64, guard: u64) -> (change: WindowChange)
        requires
            now + guard <= u64::MAX,
        ensures
            (final(self).model(), change) == after_show(old(self).model(), now, guard),
    {
        if self.visible {
            return WindowChange { reset: false, action: WindowAction::Nothing };
        }
        self.visible = true;
        self.ignore_unfocus_until = Some(now + guard);
        let action = self.recreate_surface();
        WindowChange { reset: true, action }
    }

    /// Hides the launcher; see `after_hide`.
    pub fn hide_launcher(&mut self) -> (change: WindowChange)
        ensures
            (final(self).model(), change) == after_hide(old(self).model()),
    {
        if !self.visible {
            return WindowChange { reset: false, action: WindowAction::Nothing };
        }
        self.visible = false;
        self.ignore_unfocus_until = None;
        let action = match self.window {
            Some(id) => WindowAction::RemoveWindow(id),
            None => WindowAction::Nothing,
        };
        self.window = None;
        WindowChange { reset: true, action }
    }

    /// Hides a shown launcher and shows a hidden one (the toggle command).
    pub fn toggle(&mut self, now: u64, guard: u64) -> (change: WindowChange)
        requires
            now + guard <= u64::MAX,
        ensures
            (final(self).model(), change) == (if old(self).model().shown {
                after_hide(old(self).model())
            } else {
                after_show(old(self).model(), now, guard)
            }),
    {
        if self.visible {
            self.hide_launcher()
        } else {
            self.show_launcher(now, guard)
        }
    }

    /// The window `id` was closed: when it is the
    /// launcher's, the launcher is hidden without a window and its state is
    /// reset (the result); any other window changes nothing.
    pub fn window_closed(&mut self, id: u64) -> (reset: bool)
        ensures
            reset == (old(self).model().window == Some(id)),
            final(self).model() == (if reset {
                VisibilityModel { shown: false, window: None, guard_until: None, ..old(self).model() }
            } else {
                old(self).model()
            }),
    {
        if !self.is_launcher_window(id) {
            return false;
        }
        self.window = None;
        self.visible = false;
        self.ignore_unfocus_until = None;
        true
    }

    /// An event of window `id` at `now`; see
    /// `after_event`.
    pub fn window_event(&mut self, id: u64, event: WindowEvent, now: u64) -> (change: WindowChange)
        ensures
            (final(self).model(), change) == after_event(old(self).model(), id, event, now),
    {
        if !(self.is_launcher_window(id) && self.visible) {
            return WindowChange { reset: false, action: WindowAction::Nothing };
        }
        match event {
            WindowEvent::Focused => {
                self.ignore_unfocus_until = None;
                WindowChange { reset: false, action: WindowAction::Nothing }
            },
            WindowEvent::Unfocused => {
                if self.should_ignore_unfocus(now) {
                    WindowChange { reset: false, action: WindowAction::Nothing }
                } else {
                    self.hide_launcher()
                }
            },
            WindowEvent::CloseRequested => self.hide_launcher(),
            WindowEvent::Other => WindowChange { reset: false, action: WindowAction::Nothing },
        }
    }
}

/// Showing a hidden launcher and then hiding it removes exactly the window
/// that showing created and leaves it hidden without a window.
pub proof fn lemma_show_then_hide(m: VisibilityModel, now: u64, guard: u64)
    requires
        !m.shown,
    ensures
        after_hide(after_show(m, now, guard).0).1 == (WindowChange {
            reset: true,
            action: WindowAction::RemoveWindow(m.next_id),
        }),
        !after_hide(after_show(m, now, guard).0).0.shown,
        after_hide(after_show(m, now, guard).0).0.window is None,
{
}

/// Right after showing, losing focus within the guard time is ignored:
/// the launcher stays shown and nothing is asked of the windowing side.
pub proof fn lemma_unfocus_within_guard_ignored(m: VisibilityModel, now: u64, guard: u64, at: u64)
    requires
        !m.shown,
        now + guard <= u64::MAX,
        at < now + guard,
    ensures
        after_event(after_show(m, now, guard).0, m.next_id, WindowEvent::Unfocused, at) == (
            after_show(m, now, guard).0,
            no_change(),
        ),
{
}

} // verus!
