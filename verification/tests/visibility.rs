use gamut::visibility::{LauncherVisibility, WindowAction, WindowChange, WindowEvent};

const GUARD: u64 = 250_000_000;

#[test]
fn showing_creates_a_surface_and_hiding_removes_it() {
    let mut v = LauncherVisibility::new();
    assert!(!v.is_visible());
    let shown = v.show_launcher(1_000, GUARD);
    assert_eq!(shown, WindowChange { reset: true, action: WindowAction::CreateSurface { id: 0, remove: None } });
    assert!(v.is_visible());
    assert!(v.is_launcher_window(0));
    assert_eq!(
        v.show_launcher(2_000, GUARD),
        WindowChange { reset: false, action: WindowAction::Nothing }
    );
    let hidden = v.hide_launcher();
    assert_eq!(hidden, WindowChange { reset: true, action: WindowAction::RemoveWindow(0) });
    assert!(!v.is_visible());
    assert_eq!(v.hide_launcher(), WindowChange { reset: false, action: WindowAction::Nothing });
}

#[test]
fn recreating_replaces_the_window() {
    let mut v = LauncherVisibility::new();
    v.show_launcher(0, GUARD);
    assert_eq!(v.recreate_surface(), WindowAction::CreateSurface { id: 1, remove: Some(0) });
    assert!(v.is_launcher_window(1));
    assert!(!v.is_launcher_window(0));
}

#[test]
fn focus_guard_ignores_early_unfocus() {
    let mut v = LauncherVisibility::new();
    v.show_launcher(1_000, GUARD);
    assert!(v.should_ignore_unfocus(1_000));
    assert_eq!(
        v.window_event(0, WindowEvent::Unfocused, 1_000 + GUARD - 1),
        WindowChange { reset: false, action: WindowAction::Nothing }
    );
    assert!(v.is_visible());
    assert_eq!(
        v.window_event(0, WindowEvent::Unfocused, 1_000 + GUARD),
        WindowChange { reset: true, action: WindowAction::RemoveWindow(0) }
    );
    assert!(!v.is_visible());
}

#[test]
fn focus_ends_the_guard_and_close_hides() {
    let mut v = LauncherVisibility::new();
    v.show_launcher(0, GUARD);
    v.window_event(0, WindowEvent::Focused, 1);
    assert!(!v.should_ignore_unfocus(2));
    assert_eq!(
        v.window_event(7, WindowEvent::CloseRequested, 3),
        WindowChange { reset: false, action: WindowAction::Nothing }
    );
    assert_eq!(
        v.window_event(0, WindowEvent::Other, 3),
        WindowChange { reset: false, action: WindowAction::Nothing }
    );
    assert_eq!(
        v.window_event(0, WindowEvent::CloseRequested, 3),
        WindowChange { reset: true, action: WindowAction::RemoveWindow(0) }
    );
}

#[test]
fn toggling_and_closing() {
    let mut v = LauncherVisibility::new();
    assert!(v.toggle(0, GUARD).reset);
    assert!(v.is_visible());
    assert!(v.toggle(10, GUARD).reset);
    assert!(!v.is_visible());
    v.toggle(20, GUARD);
    assert!(!v.window_closed(99));
    assert!(v.is_visible());
    assert!(v.window_closed(1));
    assert!(!v.is_visible());
    assert!(!v.is_launcher_window(1));
}
