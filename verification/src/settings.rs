//! The state of the preferences window: the preferences being edited, the
//! page shown, and the editors of the colours and of the shortcuts.
//! Saving is left to the caller, which is told when a change is to be kept.
use vstd::prelude::*;
use crate::preferences::{AppPreferences, ThemeSchemeId, normalized_hex, is_default_preferences};
use crate::model::{
    ThemeColorField, ThemeEditorState, update_theme_scheme_color, scheme_color, same_except_schemes,
    invalid_color_message,
};
use crate::capture::{ShortcutEditor, apply_outcome, lemma_fresh_editor_gives_back};
use crate::preferences::{ShortcutPreferences, lemma_default_shortcuts_distinct};
use crate::tabs::PreferencesTab;

verus! {

/// The preferences window.
pub struct PreferencesWindow {
    pub preferences: AppPreferences,
    pub active_tab: PreferencesTab,
    pub theme_editor: ThemeEditorState,
    pub shortcut_editor: ShortcutEditor,
}

impl PreferencesWindow {
    /// Whether both editors show the preferences, with no error and no
    /// capture in progress.
    pub open spec fn editors_fresh(&self) -> bool {
        &&& self.theme_editor.shows(&self.preferences)
        &&& self.theme_editor.error_of() is None
        &&& self.shortcut_editor.fresh_from(&self.preferences.shortcuts)
    }

    /// The window opened on loaded preferences, on the general page.
    pub fn new(preferences: AppPreferences) -> (w: Self)
        ensures
            w.preferences == preferences,
            w.active_tab == PreferencesTab::General,
            w.editors_fresh(),
    {
        let theme_editor = ThemeEditorState::from_preferences(&preferences);
        let shortcut_editor = ShortcutEditor::from_shortcuts(&preferences.shortcuts);
        PreferencesWindow {
            preferences,
            active_tab: PreferencesTab::General,
            theme_editor,
            shortcut_editor,
        }
    }

    /// Puts the built-in preferences back and refills both editors; the result is then to be saved.
    pub fn reset_to_defaults(&mut self)
        ensures
            is_default_preferences(&final(self).preferences),
            final(self).editors_fresh(),
            final(self).active_tab == old(self).active_tab,
    {
        self.preferences = AppPreferences::defaults();
        self.theme_editor = ThemeEditorState::from_preferences(&self.preferences);
        self.shortcut_editor = ShortcutEditor::from_shortcuts(&self.preferences.shortcuts);
    }

    /// Applies the text typed into a colour field.
    /// A colour is stored in normalised form, the error is cleared, and the
    /// result says the preferences are to be saved; any other text leaves
    /// the stored colours and shows the colour error. Either way the field
    /// shows what was typed until the colours are shown again.
    pub fn update_theme_color(&mut self, scheme: ThemeSchemeId, field: ThemeColorField, value: String) -> (save: bool)
        ensures
            save == (normalized_hex(value@) is Some),
            same_except_schemes(&final(self).preferences, &old(self).preferences),
            final(self).active_tab == old(self).active_tab,
            final(self).shortcut_editor == old(self).shortcut_editor,
            match normalized_hex(value@) {
                Some(n) => {
                    &&& scheme_color(&final(self).preferences, scheme, field) == n
                    &&& forall|s: ThemeSchemeId, f: ThemeColorField|
                        (s, f) != (scheme, field) ==> #[trigger] scheme_color(&final(self).preferences, s, f)
                            == scheme_color(&old(self).preferences, s, f)
                    &&& final(self).theme_editor.shows(&final(self).preferences)
                    &&& final(self).theme_editor.error_of() is None
                },
                None => {
                    &&& forall|s: ThemeSchemeId, f: ThemeColorField| #[trigger]
                        scheme_color(&final(self).preferences, s, f) == scheme_color(&old(self).preferences, s, f)
                    &&& final(self).theme_editor.value_of(scheme, field) == value@
                    &&& forall|s: ThemeSchemeId, f: ThemeColorField|
                        (s, f) != (scheme, field) ==> #[trigger] final(self).theme_editor.value_of(s, f)
                            == old(self).theme_editor.value_of(s, f)
                    &&& final(self).theme_editor.error_of() == Some(invalid_color_message())
                },
            },
    {
        match update_theme_scheme_color(&mut self.preferences, &mut self.theme_editor, scheme, field, value) {
            Ok(()) => {
                self.theme_editor.set_theme_error(None);
                true
            },
            Err(error) => {
                self.theme_editor.set_theme_error(Some(error));
                false
            },
        }
    }
}

/// After a reset, checking the shortcut editor gives back the built-in
/// shortcuts.
pub proof fn lemma_reset_shortcuts_read_back(w: &PreferencesWindow, r: Result<ShortcutPreferences, String>)
    requires
        is_default_preferences(&w.preferences),
        w.editors_fresh(),
        apply_outcome(w.shortcut_editor.texts(), r),
    ensures
        r matches Ok(t) && t.bindings() == w.preferences.shortcuts.bindings(),
{
    lemma_default_shortcuts_distinct(&w.preferences);
    lemma_fresh_editor_gives_back(&w.preferences.shortcuts, &w.shortcut_editor, r);
}

} // verus!
