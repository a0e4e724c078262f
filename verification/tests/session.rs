use gamut::session::SearchSession;

#[test]
fn query_results_arrive_through_generation_guard() {
    let mut session = SearchSession::new(100);
    session.set_apps(2);

    let request = session.update_query("fire");
    assert_eq!(request.query, "fire");
    assert_eq!(request.generation, session.search_generation());

    assert_eq!(session.filtered_indices(), &[0, 1]);
    assert!(session.search_in_flight());
    assert!(session.selected_result_index(false).is_none());

    assert!(session.apply_search_results(session.search_generation(), vec![0]));

    assert_eq!(session.filtered_indices(), &[0]);
    assert_eq!(session.selected_result_index(false), Some(0));
}

#[test]
fn stale_results_are_ignored() {
    let mut session = SearchSession::new(100);
    session.set_apps(1);

    session.update_query("fir");
    let current_generation = session.search_generation();
    session.update_query("fire");

    assert!(!session.apply_search_results(current_generation, vec![0]));
    assert_eq!(session.filtered_indices(), &[0]);
    assert!(session.search_in_flight());
}

#[test]
fn empty_query_shows_everything_up_to_the_limit() {
    let mut session = SearchSession::new(3);
    session.set_apps(5);
    assert_eq!(session.filtered_indices(), &[0, 1, 2]);
    assert!(!session.search_in_flight());
    assert_eq!(session.selected_result_index(false), Some(0));
    assert_eq!(session.selected_result_index(true), None);

    session.move_selection(1);
    session.move_selection(1);
    session.move_selection(1);
    assert_eq!(session.selected_rank(), 2);

    let request = session.update_query("  Term ");
    assert_eq!(request.query, "term");
    assert!(session.apply_search_results(request.generation, vec![]));
    assert_eq!(session.selected_result_index(false), None);
    assert_eq!(session.selected_rank(), 0);

    let reset = session.reset_search_state();
    assert_eq!(reset.query, "");
    assert_eq!(session.filtered_indices(), &[0, 1, 2]);
}

#[test]
fn highlight_follows_only_the_current_revision() {
    let mut session = SearchSession::new(10);
    session.set_apps(4);
    let revision = session.bump_selection_revision();
    session.sync_highlighted_rank(revision.wrapping_add(1), 3);
    assert_eq!(session.highlighted_rank(), 0);
    session.sync_highlighted_rank(revision, 9);
    assert_eq!(session.highlighted_rank(), 3);
    session.set_scroll_start(7);
    assert_eq!(session.scroll_start_rank(), 3);
}

#[test]
fn fallback_results_end_the_wait() {
    let mut session = SearchSession::new(10);
    session.set_apps(3);
    session.update_query("x");
    assert!(session.search_in_flight());
    session.apply_fallback_results(vec![2, 1]);
    assert!(!session.search_in_flight());
    assert_eq!(session.selected_result_index(false), Some(2));
}

#[test]
fn query_reset_clears_scroll_offset() {
    let mut session = SearchSession::new(100);
    session.set_apps(10);
    session.set_scroll_start(6);
    assert_eq!(session.scroll_start_rank(), 6);

    session.update_query("fire");

    assert_eq!(session.scroll_start_rank(), 0);
}

#[test]
fn update_search_results_do_not_force_scroll_back_to_selection() {
    let mut session = SearchSession::new(100);
    session.set_apps(20);
    session.set_scroll_start(11);

    assert!(session.apply_search_results(0, (0..20).collect()));

    assert_eq!(session.scroll_start_rank(), 11);
    assert_eq!(session.selected_rank(), 0);
}

#[test]
fn mod_search_results_do_not_force_scroll_back_to_selection() {
    let mut session = SearchSession::new(100);
    session.set_apps(20);
    session.set_scroll_start(11);

    assert!(session.apply_search_results(session.search_generation(), (0..20).collect()));

    assert_eq!(session.scroll_start_rank(), 11);
}
