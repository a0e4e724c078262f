use gamut::capture::{binding_string, pretty_key, ShortcutAction, ShortcutEditor};
use gamut::preferences::ShortcutPreferences;
use gamut::shortcut::{normalize_binding_key, same_shortcut, ShortcutBinding, ShortcutParseError};

#[test]
fn input_binding_key_normalization_ignores_spacing_and_case() {
    assert_eq!(normalize_binding_key(" Arrow-Down "), "arrowdown");
    assert_eq!(normalize_binding_key("Page_Up"), "pageup");
}

#[test]
fn mod_binding_key_normalization_ignores_spacing_and_case() {
    assert_eq!(normalize_binding_key(" Arrow-Down "), "arrowdown");
    assert_eq!(normalize_binding_key("Page_Up"), "pageup");
}

#[test]
fn binding_text_reads_back() {
    let binding = ShortcutBinding::parse(" control + shift+ Meta +k ").expect("reads");
    assert!(binding.ctrl && binding.shift && binding.super_key && !binding.alt);
    assert_eq!(binding.key, "k");
    assert_eq!(binding.text(), "Ctrl+Shift+Super+k");
    let again = ShortcutBinding::parse(&binding.text()).expect("reads its own text");
    assert!(same_shortcut(&binding, &again));
    assert_eq!(again.text(), binding.text());
}

#[test]
fn binding_errors() {
    assert!(matches!(ShortcutBinding::parse("   "), Err(ShortcutParseError::Empty)));
    assert!(matches!(ShortcutBinding::parse("Ctrl+"), Err(ShortcutParseError::MissingKey)));
    match ShortcutBinding::parse("Ctrl+ Hyper +x") {
        Err(e) => {
            assert!(matches!(&e, ShortcutParseError::UnknownModifier(m) if m == "Hyper"));
            assert_eq!(e.message(), "unknown modifier `Hyper`");
        }
        Ok(_) => panic!("unknown modifier must be refused"),
    }
    assert_eq!(ShortcutParseError::Empty.message(), "shortcut is empty");
    assert_eq!(ShortcutParseError::MissingKey.message(), "shortcut has no key");
}

#[test]
fn shortcuts_compare_by_normalized_key() {
    let a = ShortcutBinding::parse("Alt+Page_Up").unwrap();
    let b = ShortcutBinding::parse("alt+page-up").unwrap();
    let c = ShortcutBinding::parse("Page_Up").unwrap();
    assert!(same_shortcut(&a, &b));
    assert!(!same_shortcut(&a, &c));
    assert_eq!(a.normalized_key(), "pageup");
}

#[test]
fn captured_keys_are_written_and_shown() {
    assert_eq!(binding_string(true, true, false, true, "K"), "Ctrl+Alt+Super+K");
    assert_eq!(binding_string(false, false, false, false, "Escape"), "Escape");
    assert_eq!(pretty_key("ArrowUp"), "↑");
    assert_eq!(pretty_key("arrowdown"), "↓");
    assert_eq!(pretty_key("Escape"), "Esc");
    assert_eq!(pretty_key("return"), "Enter");
    assert_eq!(pretty_key("space"), "Space");
    assert_eq!(pretty_key("k"), "K");
    assert_eq!(pretty_key("tab"), "Tab");
    assert_eq!(pretty_key(""), "");
}

#[test]
fn capture_flow_applies_or_reports() {
    let shortcuts = ShortcutPreferences::defaults();
    let mut editor = ShortcutEditor::from_shortcuts(&shortcuts);
    assert_eq!(editor.buffer_ref(ShortcutAction::MoveUp), "ArrowUp");
    assert!(editor.finish_capture("x".to_string()).is_none());

    editor.toggle_capture(ShortcutAction::MoveUp);
    assert!(editor.is_capturing(ShortcutAction::MoveUp));
    let outcome = editor.finish_capture("Ctrl+K".to_string()).expect("capturing");
    let applied = outcome.expect("distinct shortcuts");
    assert!(applied.move_up.ctrl);
    assert_eq!(applied.move_up.key, "K");
    assert!(!editor.is_capturing(ShortcutAction::MoveUp));

    editor.set_buffer(ShortcutAction::CloseLauncher, "Enter".to_string());
    let error = editor.try_apply().unwrap_err();
    assert_eq!(error, "\"Launch selected\" conflicts with \"Close launcher\"");

    editor.set_buffer(ShortcutAction::CloseLauncher, "Foo+Esc".to_string());
    let error = editor.try_apply().unwrap_err();
    assert_eq!(error, "Close launcher: unknown modifier `Foo`");

    let preview = editor.preview_binding(ShortcutAction::CloseLauncher, &shortcuts);
    assert_eq!(preview.text(), "Escape");
    let preview = editor.preview_binding(ShortcutAction::MoveUp, &shortcuts);
    assert_eq!(preview.text(), "Ctrl+K");

    editor.set_error(Some("oops".to_string()));
    assert_eq!(editor.error(), Some("oops"));
    editor.toggle_capture(ShortcutAction::LaunchSelected);
    assert_eq!(editor.error(), None);
    editor.sync_from_shortcuts(&shortcuts);
    assert_eq!(editor.buffer_ref(ShortcutAction::CloseLauncher), "Escape");
    assert!(!editor.is_capturing(ShortcutAction::LaunchSelected));
    assert_eq!(ShortcutAction::ExpandOrMoveDown.label(), "Expand / move down");
    assert_eq!(ShortcutAction::MoveUp.get_binding(&shortcuts).text(), "ArrowUp");
}

#[test]
fn captured_shortcut_reaches_the_stored_shortcuts() {
    let mut shortcuts = ShortcutPreferences::defaults();
    let mut editor = ShortcutEditor::from_shortcuts(&shortcuts);
    assert!(!gamut::capture::apply_captured_shortcut(&mut shortcuts, &mut editor, "x".to_string()));
    assert_eq!(editor.buffer_ref(ShortcutAction::MoveUp), "ArrowUp");

    editor.toggle_capture(ShortcutAction::MoveUp);
    assert!(gamut::capture::apply_captured_shortcut(&mut shortcuts, &mut editor, "Ctrl+K".to_string()));
    assert_eq!(shortcuts.move_up.text(), "Ctrl+K");
    assert_eq!(editor.error(), None);

    editor.toggle_capture(ShortcutAction::CloseLauncher);
    assert!(!gamut::capture::apply_captured_shortcut(&mut shortcuts, &mut editor, "Enter".to_string()));
    assert_eq!(shortcuts.close_launcher.text(), "Escape");
    assert_eq!(editor.error(), Some("\"Launch selected\" conflicts with \"Close launcher\""));
    assert!(!editor.is_capturing(ShortcutAction::CloseLauncher));
}

#[test]
fn normalizing_a_key_twice_changes_nothing() {
    for key in [" Arrow-Down ", "Page_Up", "ctrl - k", "A B_C-D"] {
        let once = normalize_binding_key(key);
        assert_eq!(normalize_binding_key(&once), once);
    }
    assert_eq!(normalize_binding_key("  Arrow Down  "), "arrowdown");
}
