use gamut::progress::{
    AppRefresh, ProgressContext, ProgressIndicatorMode, ProgressPolicy,
    APP_REFRESH_INTERVAL_NANOS, APP_REFRESH_PROGRESS_DELAY_NANOS,
};
use gamut::session::SearchSession;

fn idle() -> ProgressContext {
    ProgressContext {
        manual_expanded: false,
        expanding: false,
        collapsing: false,
        search_in_flight: false,
        app_refresh_in_flight: false,
        icon_resolve_in_flight: false,
    }
}

#[test]
fn disabled_config_always_hides_progress() {
    let config = ProgressPolicy::disabled();
    let context = ProgressContext {
        manual_expanded: true,
        expanding: true,
        collapsing: false,
        search_in_flight: true,
        app_refresh_in_flight: true,
        icon_resolve_in_flight: true,
    };

    assert_eq!(config.mode(context), ProgressIndicatorMode::Hidden);
    assert!(!config.is_enabled());
}

#[test]
fn indexing_update_profile_activates_for_refreshing_apps() {
    let config = ProgressPolicy::indexing_update_indeterminate();

    assert_eq!(
        config.mode(ProgressContext {
            manual_expanded: false,
            expanding: false,
            collapsing: false,
            search_in_flight: false,
            app_refresh_in_flight: true,
            icon_resolve_in_flight: false,
        }),
        ProgressIndicatorMode::Indeterminate
    );
}

#[test]
fn indexing_profile_ignores_other_work() {
    let config = ProgressPolicy::indexing_update_indeterminate();
    assert!(config.is_enabled());
    assert_eq!(config.mode(idle()), ProgressIndicatorMode::Hidden);
    let mut busy = idle();
    busy.search_in_flight = true;
    busy.manual_expanded = true;
    busy.expanding = true;
    busy.collapsing = true;
    busy.icon_resolve_in_flight = true;
    assert_eq!(config.mode(busy), ProgressIndicatorMode::Hidden);
}

#[test]
fn progress_mode_is_indeterminate_during_indexing_updates() {
    let config = ProgressPolicy::indexing_update_indeterminate();
    let mut refresh = AppRefresh::new();
    let start = 1_000;
    assert!(refresh.request(true, start));
    let now = start + APP_REFRESH_PROGRESS_DELAY_NANOS;
    let mut context = idle();
    context.app_refresh_in_flight = refresh.indexing_progress_ready(now);
    assert_eq!(config.mode(context), ProgressIndicatorMode::Indeterminate);
}

#[test]
fn progress_mode_stays_hidden_for_short_indexing_bursts() {
    let config = ProgressPolicy::indexing_update_indeterminate();
    let mut refresh = AppRefresh::new();
    assert!(refresh.request(true, 5_000));
    let mut context = idle();
    context.app_refresh_in_flight = refresh.indexing_progress_ready(5_000);
    assert_eq!(config.mode(context), ProgressIndicatorMode::Hidden);
    assert!(!refresh.indexing_progress_ready(5_000 + APP_REFRESH_PROGRESS_DELAY_NANOS - 1));
}

#[test]
fn progress_mode_hides_when_indexing_finishes() {
    let mut refresh = AppRefresh::new();
    assert!(refresh.request(true, 0));
    refresh.finish(APP_REFRESH_PROGRESS_DELAY_NANOS * 2);
    assert!(!refresh.in_flight());
    assert!(!refresh.indexing_progress_ready(APP_REFRESH_PROGRESS_DELAY_NANOS * 3));
}

#[test]
fn refresh_requests_are_exclusive_and_rate_limited() {
    let mut refresh = AppRefresh::new();
    assert!(refresh.request(false, 10));
    assert!(!refresh.request(true, 20));
    refresh.finish(100);
    assert!(!refresh.request(false, 100 + APP_REFRESH_INTERVAL_NANOS - 1));
    assert!(refresh.request(true, 101));
    refresh.finish(200);
    assert!(refresh.request(false, 200 + APP_REFRESH_INTERVAL_NANOS));
}

#[test]
fn update_refresh_command_replaces_apps_and_clears_inflight_state() {
    let mut refresh = AppRefresh::new();
    let mut session = SearchSession::new(100);

    assert!(refresh.request(true, 0));
    assert!(refresh.in_flight());

    refresh.finish(1);
    session.set_apps(1);

    assert!(!refresh.in_flight());
    assert_eq!(session.filtered_indices().len(), 1);
}
