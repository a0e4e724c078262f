//! The launcher's own preferences editor: the text of the custom theme
//! colours and of the four shortcuts, and the errors shown beside them.
use vstd::prelude::*;
use crate::preferences::{AppPreferences, ShortcutPreferences};
use crate::model::{ShortcutAction, ThemeColorField, shortcuts_from_texts, shortcuts_outcome};

verus! {

/// The text the user is editing, and the errors shown.
#[derive(Debug)]
pub struct PreferencesEditor {
    custom_background: String,
    custom_text: String,
    custom_accent: String,
    launch_selected: String,
    expand_or_move_down: String,
    move_up: String,
    close_launcher: String,
    theme_error: Option<String>,
    shortcut_error: Option<String>,
    save_error: Option<String>,
}

/// The view of an optional message.
pub open spec fn message_view(m: &Option<String>) -> Option<Seq<char>> {
    match m {
        Some(s) => Some(s@),
        None => None,
    }
}

impl PreferencesEditor {
    /// The text of one custom colour field.
    pub closed spec fn color_text(&self, field: ThemeColorField) -> Seq<char> {
        match field {
            ThemeColorField::Background => self.custom_background@,
            ThemeColorField::Text => self.custom_text@,
            ThemeColorField::Accent => self.custom_accent@,
        }
    }

    /// The text of one shortcut field.
    pub closed spec fn shortcut_text(&self, action: ShortcutAction) -> Seq<char> {
        match action {
            ShortcutAction::LaunchSelected => self.launch_selected@,
            ShortcutAction::ExpandOrMoveDown => self.expand_or_move_down@,
            ShortcutAction::MoveUp => self.move_up@,
            ShortcutAction::CloseLauncher => self.close_launcher@,
        }
    }

    /// The three errors: theme, shortcut, save.
    pub closed spec fn errors(&self) -> (Option<Seq<char>>, Option<Seq<char>>, Option<Seq<char>>) {
        (message_view(&self.theme_error), message_view(&self.shortcut_error), message_view(&self.save_error))
    }

    /// The fields show the custom colours and the text of each shortcut of
    /// `p`, and no error is shown.
    pub open spec fn fresh_from(&self, p: &AppPreferences) -> bool {
        &&& self.color_text(ThemeColorField::Background) == p.appearance.custom_theme.background@
        &&& self.color_text(ThemeColorField::Text) == p.appearance.custom_theme.text@
        &&& self.color_text(ThemeColorField::Accent) == p.appearance.custom_theme.accent@
        &&& self.shortcut_text(ShortcutAction::LaunchSelected) == p.shortcuts.launch_selected.text_spec()
        &&& self.shortcut_text(ShortcutAction::ExpandOrMoveDown) == p.shortcuts.expand_or_move_down.text_spec()
        &&& self.shortcut_text(ShortcutAction::MoveUp) == p.shortcuts.move_up.text_spec()
        &&& self.shortcut_text(ShortcutAction::CloseLauncher) == p.shortcuts.close_launcher.text_spec()
        &&& self.errors() == (None::<Seq<char>>, None::<Seq<char>>, None::<Seq<char>>)
    }

    /// An editor showing the preferences, with no error.
    pub fn from_preferences(preferences: &AppPreferences) -> (r: Self)
        ensures
            r.fresh_from(preferences),
    {
        PreferencesEditor {
            custom_background: preferences.appearance.custom_theme.background.clone(),
            custom_text: preferences.appearance.custom_theme.text.clone(),
            custom_accent: preferences.appearance.custom_theme.accent.clone(),
            launch_selected: preferences.shortcuts.launch_selected.text(),
            expand_or_move_down: preferences.shortcuts.expand_or_move_down.text(),
            move_up: preferences.shortcuts.move_up.text(),
            close_launcher: preferences.shortcuts.close_launcher.text(),
            theme_error: None,
            shortcut_error: None,
            save_error: None,
        }
    }

    /// Starts over from the preferences, dropping edits and errors.
    pub fn sync_from_preferences(&mut self, preferences: &AppPreferences)
        ensures
            final(self).fresh_from(preferences),
    {
        *self = Self::from_preferences(preferences);
    }

    /// The text of one custom colour field.
    pub fn theme_value(&self, field: ThemeColorField) -> (r: &str)
        ensures
            r@ == self.color_text(field),
    {
        match field {
            ThemeColorField::Background => self.custom_background.as_str(),
            ThemeColorField::Text => self.custom_text.as_str(),
            ThemeColorField::Accent => self.custom_accent.as_str(),
        }
    }

    /// Replaces the text of one custom colour field; everything else stays.
    pub fn set_theme_value(&mut self, field: ThemeColorField, value: String)
        ensures
            final(self).color_text(field) == value@,
            forall|f: ThemeColorField| f != field ==> #[trigger] final(self).color_text(f) == old(self).color_text(f),
            forall|a: ShortcutAction| #[trigger] final(self).shortcut_text(a) == old(self).shortcut_text(a),
            final(self).errors() == old(self).errors(),
    {
        match field {
            ThemeColorField::Background => self.custom_background = value,
            ThemeColorField::Text => self.custom_text = value,
            ThemeColorField::Accent => self.custom_accent = value,
        }
    }

    /// The text of one shortcut field.
    pub fn shortcut_value(&self, action: ShortcutAction) -> (r: &str)
        ensures
            r@ == self.shortcut_text(action),
    {
        match action {
            ShortcutAction::LaunchSelected => self.launch_selected.as_str(),
            ShortcutAction::ExpandOrMoveDown => self.expand_or_move_down.as_str(),
            ShortcutAction::MoveUp => self.move_up.as_str(),
            ShortcutAction::CloseLauncher => self.close_launcher.as_str(),
        }
    }

    /// Replaces the text of one shortcut field; everything else stays.
    pub fn set_shortcut_value(&mut self, action: ShortcutAction, value: String)
        ensures
            final(self).shortcut_text(action) == value@,
            forall|a: ShortcutAction| a != action ==> #[trigger] final(self).shortcut_text(a) == old(self).shortcut_text(a),
            forall|f: ThemeColorField| #[trigger] final(self).color_text(f) == old(self).color_text(f),
            final(self).errors() == old(self).errors(),
    {
        match action {
            ShortcutAction::LaunchSelected => self.launch_selected = value,
            ShortcutAction::ExpandOrMoveDown => self.expand_or_move_down = value,
            ShortcutAction::MoveUp => self.move_up = value,
            ShortcutAction::CloseLauncher => self.close_launcher = value,
        }
    }

    /// The theme error, if any.
    pub fn theme_error(&self) -> (r: Option<&str>)
        ensures
            r matches Some(s) ==> self.errors().0 == Some(s@),
            r is None ==> self.errors().0 is None,
    {
        match &self.theme_error {
            Some(e) => Some(e.as_str()),
            None => None,
        }
    }

    /// Replaces the theme error; everything else stays.
    pub fn set_theme_error(&mut self, error: Option<String>)
        ensures
            final(self).errors() == (message_view(&error), old(self).errors().1, old(self).errors().2),
            forall|f: ThemeColorField| #[trigger] final(self).color_text(f) == old(self).color_text(f),
            forall|a: ShortcutAction| #[trigger] final(self).shortcut_text(a) == old(self).shortcut_text(a),
    {
        self.theme_error = error;
    }

    /// The shortcut error, if any.
    pub fn shortcut_error(&self) -> (r: Option<&str>)
        ensures
            r matches Some(s) ==> self.errors().1 == Some(s@),
            r is None ==> self.errors().1 is None,
    {
        match &self.shortcut_error {
            Some(e) => Some(e.as_str()),
            None => None,
        }
    }

    /// Replaces the shortcut error; everything else stays.
    pub fn set_shortcut_error(&mut self, error: Option<String>)
        ensures
            final(self).errors() == (old(self).errors().0, message_view(&error), old(self).errors().2),
            forall|f: ThemeColorField| #[trigger] final(self).color_text(f) == old(self).color_text(f),
            forall|a: ShortcutAction| #[trigger] final(self).shortcut_text(a) == old(self).shortcut_text(a),
    {
        self.shortcut_error = error;
    }

    /// The save error, if any.
    pub fn save_error(&self) -> (r: Option<&str>)
        ensures
            r matches Some(s) ==> self.errors().2 == Some(s@),
            r is None ==> self.errors().2 is None,
    {
        match &self.save_error {
            Some(e) => Some(e.as_str()),
            None => None,
        }
    }

    /// Replaces the save error; everything else stays.
    pub fn set_save_error(&mut self, error: Option<String>)
        ensures
            final(self).errors() == (old(self).errors().0, old(self).errors().1, message_view(&error)),
            forall|f: ThemeColorField| #[trigger] final(self).color_text(f) == old(self).color_text(f),
            forall|a: ShortcutAction| #[trigger] final(self).shortcut_text(a) == old(self).shortcut_text(a),
    {
        self.save_error = error;
    }
}

/// The launcher's editor, made from preferences whose shortcuts are
/// distinct and checked without edits, gives those shortcuts back.
pub proof fn lemma_fresh_editor_gives_back(
    p: &AppPreferences,
    e: &PreferencesEditor,
    r: Result<ShortcutPreferences, String>,
)
    requires
        e.fresh_from(p),
        crate::preferences::keys_well_formed(p.shortcuts.bindings()),
        crate::preferences::all_distinct(p.shortcuts.bindings()),
        shortcuts_outcome(editor_texts(e), r),
    ensures
        r matches Ok(t) && t.bindings() == p.shortcuts.bindings(),
{
    crate::preferences::lemma_parse_four_texts(&p.shortcuts);
    crate::preferences::lemma_first_conflict_sound(p.shortcuts.bindings());
}

/// The four shortcut texts of the editor, in order.
pub open spec fn editor_texts(editor: &PreferencesEditor) -> Seq<Seq<char>> {
    seq![
        editor.shortcut_text(ShortcutAction::LaunchSelected),
        editor.shortcut_text(ShortcutAction::ExpandOrMoveDown),
        editor.shortcut_text(ShortcutAction::MoveUp),
        editor.shortcut_text(ShortcutAction::CloseLauncher),
    ]
}

/// Turns the editor's shortcut texts into shortcuts; see `shortcuts_outcome`.
pub fn shortcut_preferences_from_editor(editor: &PreferencesEditor) -> (r: Result<ShortcutPreferences, String>)
    ensures
        shortcuts_outcome(editor_texts(editor), r),
{
    let t0 = editor.shortcut_value(ShortcutAction::LaunchSelected);
    let t1 = editor.shortcut_value(ShortcutAction::ExpandOrMoveDown);
    let t2 = editor.shortcut_value(ShortcutAction::MoveUp);
    let t3 = editor.shortcut_value(ShortcutAction::CloseLauncher);
    assert(editor_texts(editor) =~= seq![t0@, t1@, t2@, t3@]);
    shortcuts_from_texts(t0, t1, t2, t3)
}

} // verus!
