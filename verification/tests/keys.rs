use gamut::keys::{launcher_key_action, matches_shortcut, AltActionState, HeldModifiers, KeyAction};
use gamut::session::SearchSession;
use gamut::preferences::ShortcutPreferences;
use gamut::shortcut::ShortcutBinding;

const NONE: HeldModifiers = HeldModifiers { ctrl: false, alt: false, shift: false, logo: false };

#[test]
fn shortcut_matching_needs_exact_modifiers_and_key() {
    let binding = ShortcutBinding::parse("Ctrl+Page_Up").unwrap();
    let ctrl = HeldModifiers { ctrl: true, ..NONE };
    assert!(matches_shortcut(&binding, ctrl, Some("PageUp")));
    assert!(matches_shortcut(&binding, ctrl, Some(" page-up ")));
    assert!(!matches_shortcut(&binding, NONE, Some("PageUp")));
    assert!(!matches_shortcut(&binding, HeldModifiers { shift: true, ..ctrl }, Some("PageUp")));
    assert!(!matches_shortcut(&binding, ctrl, Some("PageDown")));
    assert!(!matches_shortcut(&binding, ctrl, None));
}

#[test]
fn default_shortcuts_dispatch() {
    let shortcuts = ShortcutPreferences::defaults();
    assert_eq!(
        launcher_key_action(&shortcuts, NONE, Some("Escape"), true, true, Some(3)),
        KeyAction::Hide
    );
    assert_eq!(
        launcher_key_action(&shortcuts, NONE, Some("ArrowDown"), true, true, None),
        KeyAction::Expand
    );
    assert_eq!(
        launcher_key_action(&shortcuts, NONE, Some("ArrowDown"), false, true, None),
        KeyAction::MoveDown
    );
    assert_eq!(
        launcher_key_action(&shortcuts, NONE, Some("ArrowDown"), true, false, None),
        KeyAction::MoveDown
    );
    assert_eq!(
        launcher_key_action(&shortcuts, NONE, Some("ArrowUp"), true, true, None),
        KeyAction::MoveUp
    );
    assert_eq!(
        launcher_key_action(&shortcuts, NONE, Some("Enter"), false, false, Some(4)),
        KeyAction::Launch(4)
    );
    assert_eq!(
        launcher_key_action(&shortcuts, NONE, Some("Enter"), false, false, None),
        KeyAction::Nothing
    );
    assert_eq!(
        launcher_key_action(&shortcuts, NONE, Some("a"), false, false, Some(1)),
        KeyAction::Nothing
    );
    let shift = HeldModifiers { shift: true, ..NONE };
    assert_eq!(
        launcher_key_action(&shortcuts, shift, Some("Escape"), false, false, Some(1)),
        KeyAction::Nothing
    );
}

#[test]
fn suppressed_query_change_does_not_update_search_text() {
    let mut session = SearchSession::new(100);
    let mut alt = AltActionState::new();
    session.update_query("fire");
    alt.suppress_next_query_change();

    if alt.accept_query_change(false, false, false) {
        session.update_query("fire1");
    }

    assert_eq!(session.normalized_query(), "fire");
    assert!(alt.accept_query_change(false, false, false));
}

#[test]
fn alt_overlay_follows_modifiers() {
    let mut alt = AltActionState::new();
    assert!(alt.overlay_shown(true, true, true, false));
    assert!(!alt.overlay_shown(false, true, true, false));
    assert!(!alt.overlay_shown(true, false, true, true));
    assert!(alt.overlay_shown(true, true, false, true));
    alt.suppress_alt_actions_until_release();
    assert!(!alt.overlay_shown(true, true, true, false));
    assert!(!alt.accept_query_change(true, true, true));
    alt.suppress_next_query_change();
    alt.sync_with_modifiers(true);
    assert!(!alt.overlay_shown(true, true, true, false));
    alt.sync_with_modifiers(false);
    assert!(alt.overlay_shown(true, true, true, false));
    assert!(alt.accept_query_change(false, true, true));
    assert!(!alt.consume_suppressed_query_change());
}
