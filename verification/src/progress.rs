//! When the launcher shows its progress line, and the bookkeeping of the
//! application-list refresh that drives it. Times are readings of a
//! monotonic clock in nanoseconds.
use vstd::prelude::*;

verus! {

/// Whether the progress line animates.
#[derive(Debug, Clone, Copy, PartialEq, Eq, Structural)]
pub enum ProgressIndicatorMode {
    Hidden,
    Indeterminate,
}

/// What the launcher is busy with.
#[derive(Debug, Clone, Copy, PartialEq, Eq, Structural)]
pub struct ProgressContext {
    pub manual_expanded: bool,
    pub expanding: bool,
    pub collapsing: bool,
    pub search_in_flight: bool,
    pub app_refresh_in_flight: bool,
    pub icon_resolve_in_flight: bool,
}

/// Which kinds of work the progress line is shown for, and whether it is
/// shown at all.
#[derive(Debug, Clone, Copy, PartialEq, Eq, Structural)]
pub struct ProgressPolicy {
    pub enabled: bool,
    pub during_manual_expanded: bool,
    pub during_expand: bool,
    pub during_collapse: bool,
    pub during_search: bool,
    pub during_app_refresh: bool,
    pub during_icon_resolve: bool,
}

/// The mode the line is in: animated when the policy is enabled and some
/// work in progress is one it is shown for; hidden otherwise.
pub open spec fn mode_for(policy: ProgressPolicy, context: ProgressContext) -> ProgressIndicatorMode {
    if policy.enabled && ((context.manual_expanded && policy.during_manual_expanded) || (
    context.expanding && policy.during_expand) || (context.collapsing && policy.during_collapse)
        || (context.search_in_flight && policy.during_search) || (context.app_refresh_in_flight
        && policy.during_app_refresh) || (context.icon_resolve_in_flight
        && policy.during_icon_resolve)) {
        ProgressIndicatorMode::Indeterminate
    } else {
        ProgressIndicatorMode::Hidden
    }
}

impl ProgressPolicy {
    /// The line is never shown.
    pub fn disabled() -> (p: Self)
        ensures
            !p.enabled,
            !p.during_manual_expanded && !p.during_expand && !p.during_collapse,
            !p.during_search && !p.during_app_refresh && !p.during_icon_resolve,
    {
        ProgressPolicy {
            enabled: false,
            during_manual_expanded: false,
            during_expand: false,
            during_collapse: false,
            during_search: false,
            during_app_refresh: false,
            during_icon_resolve: false,
        }
    }

    /// The line is shown, and animates only while the application list is
    /// being refreshed.
    pub fn indexing_update_indeterminate() -> (p: Self)
        ensures
            p.enabled,
            p.during_app_refresh,
            !p.during_manual_expanded && !p.during_expand && !p.during_collapse,
            !p.during_search && !p.during_icon_resolve,
    {
        ProgressPolicy {
            enabled: true,
            during_manual_expanded: false,
            during_expand: false,
            during_collapse: false,
            during_search: false,
            during_app_refresh: true,
            during_icon_resolve: false,
        }
    }

    /// The mode for the work in progress; see `mode_for`.
    pub fn mode(self, context: ProgressContext) -> (m: ProgressIndicatorMode)
        ensures
            m == mode_for(self, context),
    {
        if !self.enabled {
            return ProgressIndicatorMode::Hidden;
        }
        if (context.manual_expanded && self.during_manual_expanded) || (context.expanding
            && self.during_expand) || (context.collapsing && self.during_collapse) || (
        context.search_in_flight && self.during_search) || (context.app_refresh_in_flight
            && self.during_app_refresh) || (context.icon_resolve_in_flight
            && self.during_icon_resolve) {
            ProgressIndicatorMode::Indeterminate
        } else {
            ProgressIndicatorMode::Hidden
        }
    }

    /// Whether the line is drawn at all.
    pub fn is_enabled(self) -> (r: bool)
        ensures
            r == self.enabled,
    {
        self.enabled
    }
}

/// A disabled policy hides the line whatever the launcher is doing.
pub proof fn lemma_disabled_always_hides(context: ProgressContext)
    ensures
        mode_for(
            ProgressPolicy {
                enabled: false,
                during_manual_expanded: false,
                during_expand: false,
                during_collapse: false,
                during_search: false,
                during_app_refresh: false,
                during_icon_resolve: false,
            },
            context,
        ) == ProgressIndicatorMode::Hidden,
{
}

/// How long a refresh runs before the line shows it: 180 ms.
pub const APP_REFRESH_PROGRESS_DELAY_NANOS: u64 = 180_000_000;

/// The least time between two refreshes that are not forced: 2 s.
pub const APP_REFRESH_INTERVAL_NANOS: u64 = 2_000_000_000;

/// The time from `earlier` to `now`, zero when `now` is not later.
pub open spec fn elapsed(earlier: u64, now: u64) -> int {
    if now >= earlier {
        now - earlier
    } else {
        0
    }
}

/// The state of the application-list refresh: whether one runs, since
/// when, and when the last one finished.
#[derive(Debug)]
pub struct AppRefresh {
    in_flight: bool,
    started_at: Option<u64>,
    last_finished_at: Option<u64>,
}

/// Whether asking for a refresh at `now` starts one: none runs and the
/// request is forced, or no refresh finished yet, or the last finished at
/// least the interval ago.
pub open spec fn request_starts(r: &AppRefresh, force: bool, now: u64) -> bool {
    !r.running() && (force || match r.last_finished() {
        Some(at) => elapsed(at, now) >= APP_REFRESH_INTERVAL_NANOS,
        None => true,
    })
}

impl AppRefresh {
    pub closed spec fn running(&self) -> bool {
        self.in_flight
    }

    pub closed spec fn started(&self) -> Option<u64> {
        self.started_at
    }

    pub closed spec fn last_finished(&self) -> Option<u64> {
        self.last_finished_at
    }

    /// A start time is known exactly while a refresh runs.
    pub open spec fn wf(&self) -> bool {
        self.running() == (self.started() is Some)
    }

    /// No refresh has run yet.
    pub fn new() -> (r: Self)
        ensures
            r.wf(),
            !r.running(),
            r.last_finished() is None,
    {
        AppRefresh { in_flight: false, started_at: None, last_finished_at: None }
    }

    /// Whether a refresh runs.
    pub fn in_flight(&self) -> (r: bool)
        ensures
            r == self.running(),
    {
        self.in_flight
    }

    /// Asks for a refresh at time `now`. None starts
    /// while one runs, nor, unless forced, within the interval after the
    /// last one finished; otherwise one starts now. The result says whether
    /// it started.
    pub fn request(&mut self, force: bool, now: u64) -> (started: bool)
        requires
            old(self).wf(),
        ensures
            final(self).wf(),
            started == request_starts(old(self), force, now),
            started ==> final(self).running() && final(self).started() == Some(now),
            !started ==> *final(self) == *old(self),
            final(self).last_finished() == old(self).last_finished(),
    {
        if self.in_flight {
            return false;
        }
        if !force {
            match self.last_finished_at {
                Some(at) => {
                    let since = if now >= at {
                        now - at
                    } else {
                        0
                    };
                    if since < APP_REFRESH_INTERVAL_NANOS {
                        return false;
                    }
                },
                None => {},
            }
        }
        self.in_flight = true;
        self.started_at = Some(now);
        true
    }

    /// The refresh ended at time `now`.
    pub fn finish(&mut self, now: u64)
        ensures
            final(self).wf(),
            !final(self).running(),
            final(self).last_finished() == Some(now),
    {
        self.in_flight = false;
        self.started_at = None;
        self.last_finished_at = Some(now);
    }

    /// Whether a refresh has run long enough at `now` for the line to show
    /// it.
    pub fn indexing_progress_ready(&self, now: u64) -> (r: bool)
        ensures
            r == (self.running() && match self.started() {
                Some(at) => elapsed(at, now) >= APP_REFRESH_PROGRESS_DELAY_NANOS,
                None => false,
            }),
    {
        if !self.in_flight {
            return false;
        }
        match self.started_at {
            Some(at) => {
                let since = if now >= at {
                    now - at
                } else {
                    0
                };
                since >= APP_REFRESH_PROGRESS_DELAY_NANOS
            },
            None => false,
        }
    }
}

/// A refresh never starts while another runs, whatever is asked and when.
pub proof fn lemma_refresh_is_exclusive(r: &AppRefresh, force: bool, now: u64)
    requires
        r.running(),
    ensures
        !request_starts(r, force, now),
{
}

/// Unless forced, a refresh asked for after one finished starts exactly
/// when the interval has passed since it finished.
pub proof fn lemma_refresh_interval(r: &AppRefresh, now: u64)
    requires
        !r.running(),
        r.last_finished() is Some,
    ensures
        request_starts(r, false, now) == (elapsed(r.last_finished()->0, now) >= APP_REFRESH_INTERVAL_NANOS),
{
}

} // verus!
