//! The preferences window's model: the colour fields of a scheme, the text
//! the user is editing for each of them, applying an edited colour to the
//! preferences, and turning edited shortcut texts into shortcuts.
use vstd::prelude::*;
use crate::text::owned;
use crate::preferences::{
    AppPreferences, ThemeSchemeId, ThemeColors, ShortcutPreferences, normalized_hex,
    normalize_hex_color, parse_four, parse_shortcut_texts, first_conflict, find_conflict,
    light_seed,
};

verus! {

/// One of the three seed colours of a scheme.
#[derive(Debug, Clone, Copy, PartialEq, Eq, Structural)]
pub enum ThemeColorField {
    Background,
    Text,
    Accent,
}

impl ThemeColorField {
    /// The field's caption.
    pub fn label(self) -> (r: &'static str)
        ensures
            r@ == (match self {
                ThemeColorField::Background => "Background color"@,
                ThemeColorField::Text => "Text color"@,
                ThemeColorField::Accent => "Accent color"@,
            }),
    {
        match self {
            ThemeColorField::Background => "Background color",
            ThemeColorField::Text => "Text color",
            ThemeColorField::Accent => "Accent color",
        }
    }

    /// The hint shown in an empty field: the light scheme's built-in colour.
    pub fn placeholder(self) -> (r: &'static str)
        ensures
            r@ == (match self {
                ThemeColorField::Background => "#F8F9FB"@,
                ThemeColorField::Text => "#1C222A"@,
                ThemeColorField::Accent => "#416EF5"@,
            }),
    {
        let seed = light_seed();
        match self {
            ThemeColorField::Background => seed.background,
            ThemeColorField::Text => seed.text,
            ThemeColorField::Accent => seed.accent,
        }
    }
}

/// One colour of a scheme's stored colours.
pub open spec fn color_of(colors: &ThemeColors, field: ThemeColorField) -> Seq<char> {
    match field {
        ThemeColorField::Background => colors.background@,
        ThemeColorField::Text => colors.text@,
        ThemeColorField::Accent => colors.accent@,
    }
}

/// One stored colour of the preferences.
pub open spec fn scheme_color(p: &AppPreferences, scheme: ThemeSchemeId, field: ThemeColorField) -> Seq<
    char,
> {
    color_of(p.appearance.scheme_spec(scheme), field)
}

/// The text of the six colour fields of both schemes and the last error.
#[derive(Debug)]
pub struct ThemeEditorState {
    light_background: String,
    light_text: String,
    light_accent: String,
    dark_background: String,
    dark_text: String,
    dark_accent: String,
    theme_error: Option<String>,
}

impl ThemeEditorState {
    /// The text in the field of `field` of `scheme`.
    pub closed spec fn value_of(&self, scheme: ThemeSchemeId, field: ThemeColorField) -> Seq<char> {
        match (scheme, field) {
            (ThemeSchemeId::Light, ThemeColorField::Background) => self.light_background@,
            (ThemeSchemeId::Light, ThemeColorField::Text) => self.light_text@,
            (ThemeSchemeId::Light, ThemeColorField::Accent) => self.light_accent@,
            (ThemeSchemeId::Dark, ThemeColorField::Background) => self.dark_background@,
            (ThemeSchemeId::Dark, ThemeColorField::Text) => self.dark_text@,
            (ThemeSchemeId::Dark, ThemeColorField::Accent) => self.dark_accent@,
        }
    }

    /// The error shown under the fields, if any.
    pub closed spec fn error_of(&self) -> Option<Seq<char>> {
        match &self.theme_error {
            Some(e) => Some(e@),
            None => None,
        }
    }

    /// Every field shows the stored colour of the preferences.
    pub open spec fn shows(&self, p: &AppPreferences) -> bool {
        forall|s: ThemeSchemeId, f: ThemeColorField| #[trigger]
            self.value_of(s, f) == scheme_color(p, s, f)
    }

    /// Fields filled from the preferences, with no error.
    pub fn from_preferences(preferences: &AppPreferences) -> (r: Self)
        ensures
            r.shows(preferences),
            r.error_of() is None,
    {
        ThemeEditorState {
            light_background: preferences.appearance.schemes.light.background.clone(),
            light_text: preferences.appearance.schemes.light.text.clone(),
            light_accent: preferences.appearance.schemes.light.accent.clone(),
            dark_background: preferences.appearance.schemes.dark.background.clone(),
            dark_text: preferences.appearance.schemes.dark.text.clone(),
            dark_accent: preferences.appearance.schemes.dark.accent.clone(),
            theme_error: None,
        }
    }

    /// The text in one field.
    pub fn theme_value(&self, scheme: ThemeSchemeId, field: ThemeColorField) -> (r: &str)
        ensures
            r@ == self.value_of(scheme, field),
    {
        match (scheme, field) {
            (ThemeSchemeId::Light, ThemeColorField::Background) => self.light_background.as_str(),
            (ThemeSchemeId::Light, ThemeColorField::Text) => self.light_text.as_str(),
            (ThemeSchemeId::Light, ThemeColorField::Accent) => self.light_accent.as_str(),
            (ThemeSchemeId::Dark, ThemeColorField::Background) => self.dark_background.as_str(),
            (ThemeSchemeId::Dark, ThemeColorField::Text) => self.dark_text.as_str(),
            (ThemeSchemeId::Dark, ThemeColorField::Accent) => self.dark_accent.as_str(),
        }
    }

    /// Replaces the text of one field; the other fields and the error stay.
    pub fn set_theme_value(&mut self, scheme: ThemeSchemeId, field: ThemeColorField, value: String)
        ensures
            final(self).value_of(scheme, field) == value@,
            forall|s: ThemeSchemeId, f: ThemeColorField|
                (s, f) != (scheme, field) ==> #[trigger] final(self).value_of(s, f) == old(
                    self,
                ).value_of(s, f),
            final(self).error_of() == old(self).error_of(),
    {
        match (scheme, field) {
            (ThemeSchemeId::Light, ThemeColorField::Background) => self.light_background = value,
            (ThemeSchemeId::Light, ThemeColorField::Text) => self.light_text = value,
            (ThemeSchemeId::Light, ThemeColorField::Accent) => self.light_accent = value,
            (ThemeSchemeId::Dark, ThemeColorField::Background) => self.dark_background = value,
            (ThemeSchemeId::Dark, ThemeColorField::Text) => self.dark_text = value,
            (ThemeSchemeId::Dark, ThemeColorField::Accent) => self.dark_accent = value,
        }
    }

    /// The error shown under the fields, if any.
    pub fn theme_error(&self) -> (r: Option<&str>)
        ensures
            match self.error_of() {
                Some(e) => r matches Some(s) && s@ == e,
                None => r is None,
            },
    {
        match &self.theme_error {
            Some(e) => Some(e.as_str()),
            None => None,
        }
    }

    /// Replaces the error; the fields stay.
    pub fn set_theme_error(&mut self, error: Option<String>)
        ensures
            final(self).error_of() == (match error {
                Some(e) => Some(e@),
                None => None::<Seq<char>>,
            }),
            forall|s: ThemeSchemeId, f: ThemeColorField| #[trigger]
                final(self).value_of(s, f) == old(self).value_of(s, f),
    {
        self.theme_error = error;
    }

    /// Refills every field from the preferences; the error stays.
    pub fn apply_preferences(&mut self, preferences: &AppPreferences)
        ensures
            final(self).shows(preferences),
            final(self).error_of() == old(self).error_of(),
    {
        self.light_background = preferences.appearance.schemes.light.background.clone();
        self.light_text = preferences.appearance.schemes.light.text.clone();
        self.light_accent = preferences.appearance.schemes.light.accent.clone();
        self.dark_background = preferences.appearance.schemes.dark.background.clone();
        self.dark_text = preferences.appearance.schemes.dark.text.clone();
        self.dark_accent = preferences.appearance.schemes.dark.accent.clone();
    }
}

/// `b` is `a` after one edit of the colour fields: text typed into one
/// field (`set_theme_value`), or every field refilled from preferences
/// (`apply_preferences`). The error stays either way.
pub open spec fn one_field_edit(a: ThemeEditorState, b: ThemeEditorState) -> bool {
    &&& b.error_of() == a.error_of()
    &&& (exists|s: ThemeSchemeId, f: ThemeColorField| #[trigger] only_field_changed(a, b, s, f))
        || (exists|p: AppPreferences| #[trigger] b.shows(&p))
}

/// Every field of `b` but field `f` of scheme `s` reads as in `a`.
pub open spec fn only_field_changed(a: ThemeEditorState, b: ThemeEditorState, s: ThemeSchemeId, f: ThemeColorField) -> bool {
    forall|s2: ThemeSchemeId, f2: ThemeColorField|
        (s2, f2) != (s, f) ==> #[trigger] b.value_of(s2, f2) == a.value_of(s2, f2)
}

/// The error shown under the colour fields survives any number of field
/// edits.
pub proof fn lemma_error_survives_field_edits(states: Seq<ThemeEditorState>)
    requires
        states.len() > 0,
        forall|i: int| 0 <= i < states.len() - 1 ==> one_field_edit(#[trigger] states[i], states[i + 1]),
    ensures
        states.last().error_of() == states[0].error_of(),
    decreases states.len(),
{
    if states.len() > 1 {
        let front = states.drop_last();
        assert forall|i: int| 0 <= i < front.len() - 1 implies one_field_edit(#[trigger] front[i], front[i + 1]) by {
            assert(front[i] == states[i] && front[i + 1] == states[i + 1]);
            assert(one_field_edit(states[i], states[i + 1]));
        }
        lemma_error_survives_field_edits(front);
        assert(one_field_edit(states[states.len() - 2], states[states.len() - 1]));
    }
}

/// The message for a colour that is not six or eight hexadecimal digits.
pub open spec fn invalid_color_message() -> Seq<char> {
    "Theme colors must use 6 or 8 digit hexadecimal values like #151516 or #151516FF."@
}

/// Everything but the stored scheme colours is the same in both preferences.
pub open spec fn same_except_schemes(a: &AppPreferences, b: &AppPreferences) -> bool {
    &&& a.appearance.theme == b.appearance.theme
    &&& a.appearance.custom_theme.background@ == b.appearance.custom_theme.background@
    &&& a.appearance.custom_theme.text@ == b.appearance.custom_theme.text@
    &&& a.appearance.custom_theme.accent@ == b.appearance.custom_theme.accent@
    &&& a.shortcuts.bindings() == b.shortcuts.bindings()
}

/// Applies the text typed into one colour field. The field shows the text
/// as typed. When it is a colour (`normalized_hex`), its normalised form is
/// stored in the preferences for that scheme and field, every field then
/// shows the stored colours, and the result is `Ok`; otherwise nothing is
/// stored and the result is the error message. The editor's error is left
/// as it was in both cases.
pub fn update_theme_scheme_color(
    preferences: &mut AppPreferences,
    editor: &mut ThemeEditorState,
    scheme: ThemeSchemeId,
    field: ThemeColorField,
    value: String,
) -> (r: Result<(), String>)
    ensures
        same_except_schemes(final(preferences), old(preferences)),
        final(editor).error_of() == old(editor).error_of(),
        match normalized_hex(value@) {
            Some(n) => {
                &&& r is Ok
                &&& scheme_color(final(preferences), scheme, field) == n
                &&& forall|s: ThemeSchemeId, f: ThemeColorField|
                    (s, f) != (scheme, field) ==> #[trigger] scheme_color(final(preferences), s, f)
                        == scheme_color(old(preferences), s, f)
                &&& final(editor).shows(final(preferences))
            },
            None => {
                &&& r matches Err(m) && m@ == invalid_color_message()
                &&& forall|s: ThemeSchemeId, f: ThemeColorField| #[trigger]
                    scheme_color(final(preferences), s, f) == scheme_color(old(preferences), s, f)
                &&& final(editor).value_of(scheme, field) == value@
                &&& forall|s: ThemeSchemeId, f: ThemeColorField|
                    (s, f) != (scheme, field) ==> #[trigger] final(editor).value_of(s, f) == old(
                        editor,
                    ).value_of(s, f)
            },
        },
{
    let typed = value.clone();
    editor.set_theme_value(scheme, field, typed);
    let normalized = match normalize_hex_color(value.as_str()) {
        Some(n) => n,
        None => {
            return Err(
                owned(
                    "Theme colors must use 6 or 8 digit hexadecimal values like #151516 or #151516FF.",
                ),
            );
        },
    };
    match (scheme, field) {
        (ThemeSchemeId::Light, ThemeColorField::Background) => {
            preferences.appearance.schemes.light.background = normalized;
        },
        (ThemeSchemeId::Light, ThemeColorField::Text) => {
            preferences.appearance.schemes.light.text = normalized;
        },
        (ThemeSchemeId::Light, ThemeColorField::Accent) => {
            preferences.appearance.schemes.light.accent = normalized;
        },
        (ThemeSchemeId::Dark, ThemeColorField::Background) => {
            preferences.appearance.schemes.dark.background = normalized;
        },
        (ThemeSchemeId::Dark, ThemeColorField::Text) => {
            preferences.appearance.schemes.dark.text = normalized;
        },
        (ThemeSchemeId::Dark, ThemeColorField::Accent) => {
            preferences.appearance.schemes.dark.accent = normalized;
        },
    }
    editor.apply_preferences(preferences);
    Ok(())
}

/// The launcher shortcuts, as the preferences window names them.
#[derive(Debug, Clone, Copy, PartialEq, Eq, Structural)]
pub enum ShortcutAction {
    LaunchSelected,
    ExpandOrMoveDown,
    MoveUp,
    CloseLauncher,
}

/// The caption of each shortcut.
pub open spec fn action_label(a: ShortcutAction) -> Seq<char> {
    match a {
        ShortcutAction::LaunchSelected => "Launch selected result"@,
        ShortcutAction::ExpandOrMoveDown => "Expand or move down"@,
        ShortcutAction::MoveUp => "Move up"@,
        ShortcutAction::CloseLauncher => "Close launcher"@,
    }
}

/// The shortcut at a position of the order launch, expand/move down, move
/// up, close.
pub open spec fn action_at(i: int) -> ShortcutAction {
    if i == 0 {
        ShortcutAction::LaunchSelected
    } else if i == 1 {
        ShortcutAction::ExpandOrMoveDown
    } else if i == 2 {
        ShortcutAction::MoveUp
    } else {
        ShortcutAction::CloseLauncher
    }
}

impl ShortcutAction {
    /// The shortcut's caption.
    pub fn label(self) -> (r: &'static str)
        ensures
            r@ == action_label(self),
    {
        match self {
            ShortcutAction::LaunchSelected => "Launch selected result",
            ShortcutAction::ExpandOrMoveDown => "Expand or move down",
            ShortcutAction::MoveUp => "Move up",
            ShortcutAction::CloseLauncher => "Close launcher",
        }
    }

    /// The sentence explaining the shortcut.
    pub fn helper_text(self) -> (r: &'static str)
        ensures
            r@ == (match self {
                ShortcutAction::LaunchSelected => "Runs the highlighted application or command."@,
                ShortcutAction::ExpandOrMoveDown =>
                    "Expands the empty launcher or moves selection down."@,
                ShortcutAction::MoveUp => "Moves the highlighted selection upward."@,
                ShortcutAction::CloseLauncher => "Hides the launcher window."@,
            }),
    {
        match self {
            ShortcutAction::LaunchSelected => "Runs the highlighted application or command.",
            ShortcutAction::ExpandOrMoveDown =>
                "Expands the empty launcher or moves selection down.",
            ShortcutAction::MoveUp => "Moves the highlighted selection upward.",
            ShortcutAction::CloseLauncher => "Hides the launcher window.",
        }
    }

    fn at(i: usize) -> (a: Self)
        ensures
            a == action_at(i as int),
    {
        if i == 0 {
            ShortcutAction::LaunchSelected
        } else if i == 1 {
            ShortcutAction::ExpandOrMoveDown
        } else if i == 2 {
            ShortcutAction::MoveUp
        } else {
            ShortcutAction::CloseLauncher
        }
    }
}

/// The text given for `action`: the first pair naming it, or empty text.
pub open spec fn value_for(values: Seq<(ShortcutAction, String)>, action: ShortcutAction) -> Seq<
    char,
>
    decreases values.len(),
{
    if values.len() == 0 {
        Seq::empty()
    } else if values[0].0 == action {
        values[0].1@
    } else {
        value_for(values.drop_first(), action)
    }
}

/// The texts of the four shortcuts, in order.
pub open spec fn texts_for(values: Seq<(ShortcutAction, String)>) -> Seq<Seq<char>> {
    seq![
        value_for(values, ShortcutAction::LaunchSelected),
        value_for(values, ShortcutAction::ExpandOrMoveDown),
        value_for(values, ShortcutAction::MoveUp),
        value_for(values, ShortcutAction::CloseLauncher),
    ]
}

/// The message for a shortcut text that could not be read.
pub open spec fn invalid_shortcut_message(text: Seq<char>, error: Seq<char>) -> Seq<char> {
    "Invalid shortcut `"@ + text + "`: "@ + error
}

/// The message for two shortcuts that are the same.
pub open spec fn conflict_message(first: Seq<char>, second: Seq<char>) -> Seq<char> {
    first + " conflicts with "@ + second + "."@
}

fn value_of_action<'a>(values: &'a [(ShortcutAction, String)], action: ShortcutAction) -> (r: &'a str)
    ensures
        r@ == value_for(values@, action),
{
    let mut i: usize = 0;
    assert(values@.subrange(0, values@.len() as int) =~= values@);
    while i < values.len()
        invariant
            i <= values.len(),
            value_for(values@, action) == value_for(values@.subrange(i as int, values@.len() as int), action),
        decreases values.len() - i,
    {
        assert(values@.subrange(i as int, values@.len() as int).drop_first() =~= values@.subrange(
            i + 1,
            values@.len() as int,
        ));
        if values[i].0 == action {
            return values[i].1.as_str();
        }
        i = i + 1;
    }
    proof {
        reveal_strlit("");
        assert(values@.subrange(i as int, values@.len() as int).len() == 0);
    }
    assert(""@ =~= Seq::<char>::empty());
    ""
}

/// Builds the message of a refused shortcut text.
pub fn invalid_shortcut_text(text: &str, error: &crate::shortcut::ShortcutParseError) -> (r: String)
    ensures
        r@ == invalid_shortcut_message(text@, error.message_spec()),
{
    let mut m = owned("Invalid shortcut `");
    m.push_str(text);
    m.push_str("`: ");
    let e = error.message();
    m.push_str(e.as_str());
    m
}

/// Builds the message of two conflicting shortcuts.
pub fn conflict_text(first: &str, second: &str) -> (r: String)
    ensures
        r@ == conflict_message(first@, second@),
{
    let mut m = owned(first);
    m.push_str(" conflicts with ");
    m.push_str(second);
    m.push_str(".");
    m
}

/// What four shortcut texts (launch, expand/move down, move up, close) give:
/// the first text that cannot be read gives `Invalid shortcut `<text>`:
/// <reason>`; otherwise the first pair of equal shortcuts gives `<first>
/// conflicts with <second>.`; otherwise the shortcuts, pairwise distinct.
pub open spec fn shortcuts_outcome(t: Seq<Seq<char>>, r: Result<ShortcutPreferences, String>) -> bool {
    match parse_four(t) {
        Err((i, k)) => r matches Err(m) && m@ == invalid_shortcut_message(
            t[i],
            crate::shortcut::refusal_message(k),
        ),
        Ok(b) => match first_conflict(b) {
            Some((i, j)) => r matches Err(m) && m@ == conflict_message(
                action_label(action_at(i)),
                action_label(action_at(j)),
            ),
            None => r matches Ok(s) && s.bindings() == b && crate::preferences::all_distinct(b),
        },
    }
}

/// Turns four shortcut texts into shortcuts; see `shortcuts_outcome`.
pub fn shortcuts_from_texts(t0: &str, t1: &str, t2: &str, t3: &str) -> (r: Result<
    ShortcutPreferences,
    String,
>)
    ensures
        shortcuts_outcome(seq![t0@, t1@, t2@, t3@], r),
{
    let shortcuts = match parse_shortcut_texts(t0, t1, t2, t3) {
        Ok(s) => s,
        Err((i, e)) => {
            let text = if i == 0 {
                t0
            } else if i == 1 {
                t1
            } else if i == 2 {
                t2
            } else {
                t3
            };
            return Err(invalid_shortcut_text(text, &e));
        },
    };
    proof {
        crate::preferences::lemma_first_conflict_sound(shortcuts.bindings());
    }
    match find_conflict(&shortcuts) {
        Some((i, j)) => {
            let first = ShortcutAction::at(i).label();
            let second = ShortcutAction::at(j).label();
            Err(conflict_text(first, second))
        },
        None => Ok(shortcuts),
    }
}

/// Turns the edited texts of the shortcuts into shortcuts. The text of each
/// shortcut is the first pair naming it (empty if none); the outcome is that
/// of `shortcuts_outcome` on those texts.
pub fn shortcut_preferences_from_values(values: &[(ShortcutAction, String)]) -> (r: Result<
    ShortcutPreferences,
    String,
>)
    ensures
        shortcuts_outcome(texts_for(values@), r),
{
    let t0 = value_of_action(values, ShortcutAction::LaunchSelected);
    let t1 = value_of_action(values, ShortcutAction::ExpandOrMoveDown);
    let t2 = value_of_action(values, ShortcutAction::MoveUp);
    let t3 = value_of_action(values, ShortcutAction::CloseLauncher);
    assert(texts_for(values@) =~= seq![t0@, t1@, t2@, t3@]);
    shortcuts_from_texts(t0, t1, t2, t3)
}

} // verus!
