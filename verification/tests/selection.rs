use gamut::selection::{expansion_render_range, move_selection, scroll_start_for_selection};

#[test]
fn state_selection_movement_clamps_to_result_bounds() {
    assert_eq!(move_selection(0, 0, 1), 0);
    assert_eq!(move_selection(0, 3, -1), 0);
    assert_eq!(move_selection(1, 3, 1), 2);
    assert_eq!(move_selection(2, 3, 4), 2);
}

#[test]
fn expansion_render_range_limits_work_to_visible_rows_plus_buffer() {
    assert_eq!(expansion_render_range(0, 200, 5), 0..6);
    assert_eq!(expansion_render_range(4, 200, 5), 4..10);
    assert_eq!(expansion_render_range(8, 10, 5), 8..10);
}

#[test]
fn scroll_offset_keeps_selected_result_visible() {
    assert_eq!(scroll_start_for_selection(0, 0, 10, 5), 0);
    assert_eq!(scroll_start_for_selection(5, 0, 10, 5), 1);
    assert_eq!(scroll_start_for_selection(8, 5, 10, 5), 5);
    assert_eq!(scroll_start_for_selection(2, 4, 10, 5), 2);
}

#[test]
fn scroll_offset_clamps_when_viewport_fits_fewer_rows() {
    assert_eq!(scroll_start_for_selection(6, 0, 10, 6), 1);
    assert_eq!(scroll_start_for_selection(9, 1, 10, 6), 4);
}

#[test]
fn selection_edges() {
    assert_eq!(move_selection(10, 3, 0), 2);
    assert_eq!(move_selection(1, 3, -5), 0);
    assert_eq!(expansion_render_range(0, 0, 5), 0..0);
    assert_eq!(expansion_render_range(50, 10, 0), 9..10);
    assert_eq!(expansion_render_range(0, 10, usize::MAX), 0..10);
    assert_eq!(scroll_start_for_selection(3, 0, 0, 5), 0);
    assert_eq!(scroll_start_for_selection(3, 0, 2, 5), 0);
}
