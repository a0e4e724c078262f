use gamut::scrollbar::{ScrollbarReveal, SCROLLBAR_VISIBLE_FOR_NANOS};

#[test]
fn scrollbar_stays_hidden_until_a_reveal_trigger_occurs() {
    let reveal = ScrollbarReveal::new();
    assert!(!reveal.should_show(0, true));
}

#[test]
fn mouse_scroll_reveals_results_scrollbar() {
    let mut reveal = ScrollbarReveal::new();
    reveal.reveal_temporarily(1_000);
    assert!(reveal.should_show(1_000, true));
    assert!(!reveal.should_show(1_000, false));
}

#[test]
fn keyboard_reaching_last_result_reveals_results_scrollbar() {
    let mut reveal = ScrollbarReveal::new();
    reveal.reveal_for_keyboard_end(19, 18, 20, 50);
    assert!(reveal.should_show(50, true));
}

#[test]
fn keyboard_navigation_does_not_reveal_when_not_at_last_result() {
    let mut reveal = ScrollbarReveal::new();
    reveal.reveal_for_keyboard_end(5, 4, 20, 50);
    assert!(!reveal.should_show(50, true));
    reveal.reveal_for_keyboard_end(19, 19, 20, 50);
    assert!(!reveal.should_show(50, true));
    reveal.reveal_for_keyboard_end(0, 0, 0, 50);
    assert!(!reveal.should_show(50, true));
}

#[test]
fn reset_hides_scrollbar_after_any_reveal() {
    let mut reveal = ScrollbarReveal::new();
    reveal.reveal_temporarily(7);
    reveal.reset();
    assert!(!reveal.should_show(7, true));
}

#[test]
fn scrollbar_auto_hides_after_deadline_expires() {
    let mut reveal = ScrollbarReveal::new();
    reveal.reveal_temporarily(1_000);
    assert!(reveal.is_revealed_at(1_000 + SCROLLBAR_VISIBLE_FOR_NANOS));
    assert!(!reveal.should_show(1_000 + SCROLLBAR_VISIBLE_FOR_NANOS + 1, true));
}

#[test]
fn visibility_changes_are_reported_once() {
    let mut reveal = ScrollbarReveal::new();
    assert!(!reveal.visibility_tick(false));
    assert!(reveal.visibility_tick(true));
    assert!(!reveal.visibility_tick(true));
    assert!(reveal.visibility_tick(false));
}
