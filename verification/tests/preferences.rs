use gamut::editor::{shortcut_preferences_from_editor, PreferencesEditor};
use gamut::model::{
    shortcut_preferences_from_values, update_theme_scheme_color, ShortcutAction, ThemeColorField,
    ThemeEditorState,
};
use gamut::preferences::{
    find_conflict, normalize_hex_color, AppPreferences, ShortcutPreferences, ThemePreference,
    ThemeSchemeId,
};
use gamut::settings::PreferencesWindow;
use gamut::shortcut::ShortcutBinding;
use gamut::tabs::PreferencesTab;

#[test]
fn hex_colors_are_normalized_with_hash() {
    assert_eq!(normalize_hex_color("a1b2c3"), Some("#A1B2C3".to_string()));
    assert_eq!(normalize_hex_color("#abcdef12"), Some("#ABCDEF12".to_string()));
    assert_eq!(normalize_hex_color("invalid"), None);
}

#[test]
fn hex_color_edges() {
    assert_eq!(normalize_hex_color("  #0a0B0c  "), Some("#0A0B0C".to_string()));
    assert_eq!(normalize_hex_color("##123456"), Some("#123456".to_string()));
    assert_eq!(normalize_hex_color("#12345"), None);
    assert_eq!(normalize_hex_color("#1234567"), None);
    assert_eq!(normalize_hex_color("#12345g"), None);
    assert_eq!(normalize_hex_color(""), None);
}

#[test]
fn preferences_duplicate_shortcuts_are_rejected() {
    let preferences = AppPreferences::defaults();
    let mut editor = PreferencesEditor::from_preferences(&preferences);
    editor.set_shortcut_value(ShortcutAction::MoveUp, "ArrowDown".to_string());

    let error = shortcut_preferences_from_editor(&editor)
        .expect_err("duplicate bindings should be rejected");

    assert!(error.contains("Move up"));
}

#[test]
fn model_duplicate_shortcuts_are_rejected() {
    let error = shortcut_preferences_from_values(&[
        (ShortcutAction::LaunchSelected, "Enter".to_string()),
        (ShortcutAction::ExpandOrMoveDown, "ArrowDown".to_string()),
        (ShortcutAction::MoveUp, "ArrowDown".to_string()),
        (ShortcutAction::CloseLauncher, "Escape".to_string()),
    ])
    .expect_err("duplicate bindings should be rejected");

    assert!(error.contains("Move up"));
}

#[test]
fn conflict_and_invalid_messages_are_exact() {
    let conflict = shortcut_preferences_from_values(&[
        (ShortcutAction::LaunchSelected, "Enter".to_string()),
        (ShortcutAction::ExpandOrMoveDown, "ArrowDown".to_string()),
        (ShortcutAction::MoveUp, " arrow-down ".to_string()),
        (ShortcutAction::CloseLauncher, "Escape".to_string()),
    ])
    .unwrap_err();
    assert_eq!(conflict, "Expand or move down conflicts with Move up.");

    let invalid = shortcut_preferences_from_values(&[
        (ShortcutAction::LaunchSelected, "Hyper+Enter".to_string()),
        (ShortcutAction::ExpandOrMoveDown, "ArrowDown".to_string()),
        (ShortcutAction::MoveUp, "ArrowUp".to_string()),
        (ShortcutAction::CloseLauncher, "Escape".to_string()),
    ])
    .unwrap_err();
    assert_eq!(invalid, "Invalid shortcut `Hyper+Enter`: unknown modifier `Hyper`");

    let missing = shortcut_preferences_from_values(&[
        (ShortcutAction::ExpandOrMoveDown, "ArrowDown".to_string()),
        (ShortcutAction::MoveUp, "ArrowUp".to_string()),
        (ShortcutAction::CloseLauncher, "Escape".to_string()),
    ])
    .unwrap_err();
    assert_eq!(missing, "Invalid shortcut ``: shortcut is empty");
}

#[test]
fn distinct_shortcuts_are_accepted() {
    let shortcuts = shortcut_preferences_from_values(&[
        (ShortcutAction::LaunchSelected, "Ctrl+Enter".to_string()),
        (ShortcutAction::ExpandOrMoveDown, "ArrowDown".to_string()),
        (ShortcutAction::MoveUp, "ArrowUp".to_string()),
        (ShortcutAction::CloseLauncher, "Escape".to_string()),
    ])
    .expect("distinct shortcuts are accepted");
    assert!(shortcuts.launch_selected.ctrl);
    assert_eq!(shortcuts.launch_selected.key, "Enter");
    assert_eq!(shortcuts.close_launcher.text(), "Escape");
    assert_eq!(find_conflict(&shortcuts), None);
}

#[test]
fn find_conflict_reports_first_pair() {
    let shortcuts = ShortcutPreferences {
        launch_selected: ShortcutBinding::plain("Enter"),
        expand_or_move_down: ShortcutBinding::plain("Escape"),
        move_up: ShortcutBinding::plain("enter"),
        close_launcher: ShortcutBinding::plain("ESCAPE"),
    };
    assert_eq!(find_conflict(&shortcuts), Some((0, 2)));
    assert_eq!(find_conflict(&ShortcutPreferences::defaults()), None);
}

#[test]
fn defaults_hold_the_built_in_values() {
    let preferences = AppPreferences::defaults();
    assert_eq!(preferences.appearance.theme, ThemePreference::System);
    assert_eq!(preferences.appearance.schemes.light.background, "#F8F9FB");
    assert_eq!(preferences.appearance.schemes.dark.accent, "#5E8BFF");
    assert_eq!(preferences.appearance.custom_theme.text, "#EBEDF2");
    assert_eq!(preferences.shortcuts.launch_selected.text(), "Enter");
    assert_eq!(preferences.shortcuts.expand_or_move_down.text(), "ArrowDown");
    assert_eq!(preferences.shortcuts.move_up.text(), "ArrowUp");
    assert_eq!(preferences.shortcuts.close_launcher.text(), "Escape");
    assert_eq!(ThemePreference::Dark.label(), "Dark");
}

#[test]
fn theme_updates_target_selected_scheme() {
    let mut preferences = AppPreferences::defaults();
    let mut editor = ThemeEditorState::from_preferences(&preferences);

    update_theme_scheme_color(
        &mut preferences,
        &mut editor,
        ThemeSchemeId::Light,
        ThemeColorField::Accent,
        "#123abc".to_string(),
    )
    .expect("light scheme update should succeed");

    assert_eq!(preferences.appearance.schemes.light.accent, "#123ABC");
    assert_eq!(preferences.appearance.schemes.dark.accent, "#5E8BFF");
    assert_eq!(editor.theme_value(ThemeSchemeId::Light, ThemeColorField::Accent), "#123ABC");
}

#[test]
fn invalid_theme_color_keeps_preferences() {
    let mut preferences = AppPreferences::defaults();
    let mut editor = ThemeEditorState::from_preferences(&preferences);
    let error = update_theme_scheme_color(
        &mut preferences,
        &mut editor,
        ThemeSchemeId::Dark,
        ThemeColorField::Background,
        "nope".to_string(),
    )
    .unwrap_err();
    assert_eq!(
        error,
        "Theme colors must use 6 or 8 digit hexadecimal values like #151516 or #151516FF."
    );
    assert_eq!(preferences.appearance.schemes.dark.background, "#151516");
    assert_eq!(editor.theme_value(ThemeSchemeId::Dark, ThemeColorField::Background), "nope");
    assert_eq!(editor.theme_value(ThemeSchemeId::Light, ThemeColorField::Text), "#1C222A");
    assert_eq!(editor.theme_error(), None);
    editor.set_theme_error(Some("bad".to_string()));
    assert_eq!(editor.theme_error(), Some("bad"));
    editor.apply_preferences(&preferences);
    assert_eq!(editor.theme_value(ThemeSchemeId::Dark, ThemeColorField::Background), "#151516");
}

#[test]
fn editor_round_trips_fresh_preferences() {
    let preferences = AppPreferences::defaults();
    let mut editor = PreferencesEditor::from_preferences(&preferences);
    assert_eq!(editor.shortcut_value(ShortcutAction::MoveUp), "ArrowUp");
    assert_eq!(editor.theme_value(ThemeColorField::Accent), "#5E8BFF");
    let shortcuts = shortcut_preferences_from_editor(&editor).expect("defaults are distinct");
    assert_eq!(shortcuts.move_up.text(), "ArrowUp");

    editor.set_theme_value(ThemeColorField::Text, "#000000".to_string());
    assert_eq!(editor.theme_value(ThemeColorField::Text), "#000000");
    editor.set_shortcut_error(Some("x".to_string()));
    editor.set_save_error(Some("y".to_string()));
    editor.set_theme_error(Some("z".to_string()));
    assert_eq!(editor.shortcut_error(), Some("x"));
    assert_eq!(editor.save_error(), Some("y"));
    assert_eq!(editor.theme_error(), Some("z"));
    editor.sync_from_preferences(&preferences);
    assert_eq!(editor.theme_value(ThemeColorField::Text), "#EBEDF2");
    assert_eq!(editor.shortcut_error(), None);
}

#[test]
fn field_and_action_captions() {
    assert_eq!(ThemeColorField::Background.label(), "Background color");
    assert_eq!(ThemeColorField::Accent.placeholder(), "#416EF5");
    assert_eq!(ShortcutAction::MoveUp.label(), "Move up");
    assert_eq!(
        ShortcutAction::CloseLauncher.helper_text(),
        "Hides the launcher window."
    );
}

#[test]
fn preferences_window_edits_and_resets() {
    let mut window = PreferencesWindow::new(AppPreferences::defaults());
    assert_eq!(window.active_tab, PreferencesTab::General);
    assert!(window.update_theme_color(ThemeSchemeId::Dark, ThemeColorField::Text, " ffffff ".to_string()));
    assert_eq!(window.preferences.appearance.schemes.dark.text, "#FFFFFF");
    assert_eq!(window.theme_editor.theme_error(), None);

    assert!(!window.update_theme_color(ThemeSchemeId::Dark, ThemeColorField::Text, "#zzz".to_string()));
    assert_eq!(window.preferences.appearance.schemes.dark.text, "#FFFFFF");
    assert_eq!(window.theme_editor.theme_value(ThemeSchemeId::Dark, ThemeColorField::Text), "#zzz");
    assert!(window.theme_editor.theme_error().is_some());

    window.shortcut_editor.set_buffer(gamut::capture::ShortcutAction::MoveUp, "k".to_string());
    window.active_tab = PreferencesTab::Shortcuts;
    window.reset_to_defaults();
    assert_eq!(window.active_tab, PreferencesTab::Shortcuts);
    assert_eq!(window.preferences.appearance.schemes.dark.text, "#EBEDF2");
    assert_eq!(window.theme_editor.theme_error(), None);
    let shortcuts = window.shortcut_editor.try_apply().expect("defaults read back");
    assert_eq!(shortcuts.move_up.text(), "ArrowUp");
}

#[test]
fn normalized_colors_normalize_to_themselves() {
    for value in ["a1b2c3", " ##abcdef12 ", "#000000"] {
        let once = normalize_hex_color(value).unwrap();
        assert_eq!(normalize_hex_color(&once), Some(once.clone()));
    }
}

#[test]
fn theme_error_survives_field_edits() {
    let preferences = AppPreferences::defaults();
    let mut editor = ThemeEditorState::from_preferences(&preferences);
    editor.set_theme_error(Some("bad".to_string()));
    editor.set_theme_value(ThemeSchemeId::Light, ThemeColorField::Text, "x".to_string());
    editor.apply_preferences(&preferences);
    editor.set_theme_value(ThemeSchemeId::Dark, ThemeColorField::Accent, "y".to_string());
    assert_eq!(editor.theme_error(), Some("bad"));
}
