//! The shortcut page of the preferences window: one text buffer per
//! shortcut, the shortcut whose next key press is being captured, and the
//! check of the edited texts.
use vstd::prelude::*;
use crate::text::{chars_of, string_from, owned, ascii_lowercase, ascii_lowercase_chars, ascii_uppercase};
use crate::shortcut::{ShortcutBinding, BindingParts, parse_binding_text, binding_text};
use crate::preferences::{ShortcutPreferences, parse_four, first_conflict, find_conflict};

verus! {

/// The shortcuts, as the shortcut page names them.
#[derive(Debug, Clone, Copy, PartialEq, Eq, Structural)]
pub enum ShortcutAction {
    LaunchSelected,
    ExpandOrMoveDown,
    MoveUp,
    CloseLauncher,
}

/// The position of a shortcut in the order launch, expand/move down, move
/// up, close.
pub open spec fn action_index(a: ShortcutAction) -> int {
    match a {
        ShortcutAction::LaunchSelected => 0,
        ShortcutAction::ExpandOrMoveDown => 1,
        ShortcutAction::MoveUp => 2,
        ShortcutAction::CloseLauncher => 3,
    }
}

/// The shortcut at a position.
pub open spec fn action_at(i: int) -> ShortcutAction {
    if i == 0 {
        ShortcutAction::LaunchSelected
    } else if i == 1 {
        ShortcutAction::ExpandOrMoveDown
    } else if i == 2 {
        ShortcutAction::MoveUp
    } else {
        ShortcutAction::CloseLauncher
    }
}

/// The caption of each shortcut on this page.
pub open spec fn label_of(a: ShortcutAction) -> Seq<char> {
    match a {
        ShortcutAction::LaunchSelected => "Launch selected"@,
        ShortcutAction::ExpandOrMoveDown => "Expand / move down"@,
        ShortcutAction::MoveUp => "Move up"@,
        ShortcutAction::CloseLauncher => "Close launcher"@,
    }
}

impl ShortcutAction {
    /// The shortcut's caption.
    pub fn label(self) -> (r: &'static str)
        ensures
            r@ == label_of(self),
    {
        match self {
            ShortcutAction::LaunchSelected => "Launch selected",
            ShortcutAction::ExpandOrMoveDown => "Expand / move down",
            ShortcutAction::MoveUp => "Move up",
            ShortcutAction::CloseLauncher => "Close launcher",
        }
    }

    /// The sentence under the caption.
    pub fn description(self) -> (r: &'static str)
        ensures
            r@ == (match self {
                ShortcutAction::LaunchSelected => "Runs the highlighted application"@,
                ShortcutAction::ExpandOrMoveDown => "Expands the list or moves selection down"@,
                ShortcutAction::MoveUp => "Moves selection upward"@,
                ShortcutAction::CloseLauncher => "Hides the launcher window"@,
            }),
    {
        match self {
            ShortcutAction::LaunchSelected => "Runs the highlighted application",
            ShortcutAction::ExpandOrMoveDown => "Expands the list or moves selection down",
            ShortcutAction::MoveUp => "Moves selection upward",
            ShortcutAction::CloseLauncher => "Hides the launcher window",
        }
    }

    /// The stored binding of this shortcut.
    pub fn get_binding(self, shortcuts: &ShortcutPreferences) -> (r: &ShortcutBinding)
        ensures
            r.parts() == shortcuts.bindings()[action_index(self)],
    {
        match self {
            ShortcutAction::LaunchSelected => &shortcuts.launch_selected,
            ShortcutAction::ExpandOrMoveDown => &shortcuts.expand_or_move_down,
            ShortcutAction::MoveUp => &shortcuts.move_up,
            ShortcutAction::CloseLauncher => &shortcuts.close_launcher,
        }
    }

    /// The shortcut at a position.
    pub fn at(i: usize) -> (a: Self)
        ensures
            a == action_at(i as int),
    {
        if i == 0 {
            ShortcutAction::LaunchSelected
        } else if i == 1 {
            ShortcutAction::ExpandOrMoveDown
        } else if i == 2 {
            ShortcutAction::MoveUp
        } else {
            ShortcutAction::CloseLauncher
        }
    }
}

/// The message of a shortcut text that cannot be read: `<caption>: <reason>`.
pub open spec fn parse_failure_message(a: ShortcutAction, reason: Seq<char>) -> Seq<char> {
    label_of(a) + ": "@ + reason
}

/// The message of two equal shortcuts: `"<first>" conflicts with "<second>"`.
pub open spec fn conflict_message(a: ShortcutAction, b: ShortcutAction) -> Seq<char> {
    "\""@ + label_of(a) + "\" conflicts with \""@ + label_of(b) + "\""@
}

/// What the four texts give: the first text that cannot be read gives its
/// caption and reason; otherwise the first pair of equal shortcuts gives the
/// conflict message; otherwise the shortcuts, pairwise distinct.
pub open spec fn apply_outcome(t: Seq<Seq<char>>, r: Result<ShortcutPreferences, String>) -> bool {
    match parse_four(t) {
        Err((i, k)) => r matches Err(m) && m@ == parse_failure_message(
            action_at(i),
            crate::shortcut::refusal_message(k),
        ),
        Ok(b) => match first_conflict(b) {
            Some((i, j)) => r matches Err(m) && m@ == conflict_message(action_at(i), action_at(j)),
            None => r matches Ok(s) && s.bindings() == b && crate::preferences::all_distinct(b),
        },
    }
}

/// The text buffers of the four shortcuts, the last error, and the shortcut
/// being captured.
pub struct ShortcutEditor {
    buffers: [String; 4],
    error: Option<String>,
    capturing: Option<ShortcutAction>,
}

impl ShortcutEditor {
    /// The text of the buffer of `a`.
    pub closed spec fn buffer_text(&self, a: ShortcutAction) -> Seq<char> {
        self.buffers@[action_index(a)]@
    }

    /// The four buffers, in order.
    pub open spec fn texts(&self) -> Seq<Seq<char>> {
        seq![
            self.buffer_text(ShortcutAction::LaunchSelected),
            self.buffer_text(ShortcutAction::ExpandOrMoveDown),
            self.buffer_text(ShortcutAction::MoveUp),
            self.buffer_text(ShortcutAction::CloseLauncher),
        ]
    }

    /// The error shown, if any.
    pub closed spec fn error_text(&self) -> Option<Seq<char>> {
        match &self.error {
            Some(e) => Some(e@),
            None => None,
        }
    }

    /// The shortcut whose next key press is awaited, if any.
    pub closed spec fn capture_target(&self) -> Option<ShortcutAction> {
        self.capturing
    }

    /// The buffers show the text of each binding; no error, no capture.
    pub open spec fn fresh_from(&self, s: &ShortcutPreferences) -> bool {
        &&& self.buffer_text(ShortcutAction::LaunchSelected) == s.launch_selected.text_spec()
        &&& self.buffer_text(ShortcutAction::ExpandOrMoveDown) == s.expand_or_move_down.text_spec()
        &&& self.buffer_text(ShortcutAction::MoveUp) == s.move_up.text_spec()
        &&& self.buffer_text(ShortcutAction::CloseLauncher) == s.close_launcher.text_spec()
        &&& self.error_text() is None
        &&& self.capture_target() is None
    }

    /// An editor showing the shortcuts.
    pub fn from_shortcuts(shortcuts: &ShortcutPreferences) -> (r: Self)
        ensures
            r.fresh_from(shortcuts),
    {
        ShortcutEditor {
            buffers: [
                shortcuts.launch_selected.text(),
                shortcuts.expand_or_move_down.text(),
                shortcuts.move_up.text(),
                shortcuts.close_launcher.text(),
            ],
            error: None,
            capturing: None,
        }
    }

    /// Starts over from the shortcuts.
    pub fn sync_from_shortcuts(&mut self, shortcuts: &ShortcutPreferences)
        ensures
            final(self).fresh_from(shortcuts),
    {
        *self = Self::from_shortcuts(shortcuts);
    }

    fn index_of(action: ShortcutAction) -> (i: usize)
        ensures
            i == action_index(action),
    {
        match action {
            ShortcutAction::LaunchSelected => 0,
            ShortcutAction::ExpandOrMoveDown => 1,
            ShortcutAction::MoveUp => 2,
            ShortcutAction::CloseLauncher => 3,
        }
    }

    /// Replaces the text of one buffer; everything else stays.
    pub fn set_buffer(&mut self, action: ShortcutAction, value: String)
        ensures
            final(self).buffer_text(action) == value@,
            forall|a: ShortcutAction| a != action ==> #[trigger] final(self).buffer_text(a) == old(
                self,
            ).buffer_text(a),
            final(self).error_text() == old(self).error_text(),
            final(self).capture_target() == old(self).capture_target(),
    {
        let i = Self::index_of(action);
        self.buffers[i] = value;
    }

    /// The text of one buffer.
    pub fn buffer_ref(&self, action: ShortcutAction) -> (r: &str)
        ensures
            r@ == self.buffer_text(action),
    {
        self.buffers[Self::index_of(action)].as_str()
    }

    /// The binding to show for a shortcut: its buffer read as a binding, or
    /// the stored binding when the buffer cannot be read.
    pub fn preview_binding(&self, action: ShortcutAction, shortcuts: &ShortcutPreferences) -> (r:
        ShortcutBinding)
        ensures
            match parse_binding_text(self.buffer_text(action)) {
                Ok(p) => r.parts() == p,
                Err(_) => r.parts() == shortcuts.bindings()[action_index(action)],
            },
    {
        match ShortcutBinding::parse(self.buffer_ref(action)) {
            Ok(b) => b,
            Err(_) => action.get_binding(shortcuts).copied(),
        }
    }

    /// Whether the next key press is awaited for `action`.
    pub fn is_capturing(&self, action: ShortcutAction) -> (r: bool)
        ensures
            r == (self.capture_target() == Some(action)),
    {
        match self.capturing {
            Some(a) => a == action,
            None => false,
        }
    }

    /// Starts capturing for `action` (clearing the error), or stops if it was
    /// already capturing for it. The buffers stay.
    pub fn toggle_capture(&mut self, action: ShortcutAction)
        ensures
            old(self).capture_target() == Some(action) ==> final(self).capture_target() is None
                && final(self).error_text() == old(self).error_text(),
            old(self).capture_target() != Some(action) ==> final(self).capture_target() == Some(
                action,
            ) && final(self).error_text() is None,
            forall|a: ShortcutAction| #[trigger] final(self).buffer_text(a) == old(
                self,
            ).buffer_text(a),
    {
        if self.is_capturing(action) {
            self.capturing = None;
        } else {
            self.capturing = Some(action);
            self.error = None;
        }
    }

    /// Replaces the error shown; everything else stays.
    pub fn set_error(&mut self, error: Option<String>)
        ensures
            final(self).error_text() == (match error {
                Some(e) => Some(e@),
                None => None::<Seq<char>>,
            }),
            final(self).capture_target() == old(self).capture_target(),
            forall|a: ShortcutAction| #[trigger] final(self).buffer_text(a) == old(
                self,
            ).buffer_text(a),
    {
        self.error = error;
    }

    /// The error shown, if any.
    pub fn error(&self) -> (r: Option<&str>)
        ensures
            match self.error_text() {
                Some(e) => r matches Some(s) && s@ == e,
                None => r is None,
            },
    {
        match &self.error {
            Some(e) => Some(e.as_str()),
            None => None,
        }
    }

    /// A captured key combination: when a shortcut is being captured, its
    /// buffer takes the text, capturing stops and the buffers are checked
    /// (`try_apply`); with no capture in progress nothing changes.
    pub fn finish_capture(&mut self, captured: String) -> (r: Option<Result<ShortcutPreferences, String>>)
        ensures
            match old(self).capture_target() {
                None => r is None && final(self).texts() == old(self).texts()
                    && final(self).capture_target() is None,
                Some(a) => {
                    &&& final(self).buffer_text(a) == captured@
                    &&& forall|b: ShortcutAction| b != a ==> #[trigger] final(self).buffer_text(b)
                        == old(self).buffer_text(b)
                    &&& final(self).capture_target() is None
                    &&& r matches Some(res) && apply_outcome(final(self).texts(), res)
                },
            },
            final(self).error_text() == old(self).error_text(),
    {
        let action = match self.capturing {
            Some(a) => a,
            None => return None,
        };
        self.capturing = None;
        self.set_buffer(action, captured);
        Some(self.try_apply())
    }

    /// Reads the four buffers into shortcuts; see `apply_outcome`.
    pub fn try_apply(&self) -> (r: Result<ShortcutPreferences, String>)
        ensures
            apply_outcome(self.texts(), r),
    {
        let t0 = self.buffer_ref(ShortcutAction::LaunchSelected);
        let t1 = self.buffer_ref(ShortcutAction::ExpandOrMoveDown);
        let t2 = self.buffer_ref(ShortcutAction::MoveUp);
        let t3 = self.buffer_ref(ShortcutAction::CloseLauncher);
        let shortcuts = match crate::preferences::parse_shortcut_texts(t0, t1, t2, t3) {
            Ok(s) => s,
            Err((i, e)) => {
                let mut m = owned(ShortcutAction::at(i).label());
                m.push_str(": ");
                let reason = e.message();
                m.push_str(reason.as_str());
                return Err(m);
            },
        };
        proof {
            crate::preferences::lemma_first_conflict_sound(shortcuts.bindings());
        }
        match find_conflict(&shortcuts) {
            Some((i, j)) => {
                let mut m = owned("\"");
                m.push_str(ShortcutAction::at(i).label());
                m.push_str("\" conflicts with \"");
                m.push_str(ShortcutAction::at(j).label());
                m.push_str("\"");
                Err(m)
            },
            None => Ok(shortcuts),
        }
    }
}

/// The error the four texts give, if any: see `apply_outcome`.
pub open spec fn failure_of(t: Seq<Seq<char>>) -> Option<Seq<char>> {
    match parse_four(t) {
        Err((i, k)) => Some(parse_failure_message(action_at(i), crate::shortcut::refusal_message(k))),
        Ok(b) => match first_conflict(b) {
            Some((i, j)) => Some(conflict_message(action_at(i), action_at(j))),
            None => None,
        },
    }
}

/// A captured key combination reaches the stored shortcuts. With no
/// capture in progress nothing changes. Otherwise the captured text fills
/// the buffer of the shortcut being captured and capturing stops; when the
/// four buffers then read as distinct shortcuts, those are stored, the
/// error is cleared and the result says the shortcuts changed; otherwise
/// the stored shortcuts stay and the error is the reason (`failure_of`).
pub fn apply_captured_shortcut(shortcuts: &mut ShortcutPreferences, editor: &mut ShortcutEditor, captured: String) -> (changed: bool)
    ensures
        old(editor).capture_target() is None ==> !changed && *final(shortcuts) == *old(shortcuts)
            && final(editor).texts() == old(editor).texts() && final(editor).error_text()
            == old(editor).error_text() && final(editor).capture_target() is None,
        old(editor).capture_target() matches Some(a) ==> {
            &&& final(editor).buffer_text(a) == captured@
            &&& forall|b: ShortcutAction| b != a ==> #[trigger] final(editor).buffer_text(b)
                == old(editor).buffer_text(b)
            &&& final(editor).capture_target() is None
            &&& final(editor).error_text() == failure_of(final(editor).texts())
            &&& changed == (failure_of(final(editor).texts()) is None)
            &&& changed ==> parse_four(final(editor).texts()) == Ok::<Seq<BindingParts>, (int, crate::shortcut::BindingErrorKind)>(final(shortcuts).bindings())
            &&& !changed ==> *final(shortcuts) == *old(shortcuts)
        },
{
    match editor.finish_capture(captured) {
        None => false,
        Some(Ok(new_shortcuts)) => {
            *shortcuts = new_shortcuts;
            editor.set_error(None);
            true
        },
        Some(Err(message)) => {
            editor.set_error(Some(message));
            false
        },
    }
}

/// Checking the buffers of an editor just made from distinct shortcuts
/// gives those shortcuts back.
pub proof fn lemma_fresh_editor_gives_back(
    s: &ShortcutPreferences,
    e: &ShortcutEditor,
    r: Result<ShortcutPreferences, String>,
)
    requires
        e.fresh_from(s),
        crate::preferences::keys_well_formed(s.bindings()),
        crate::preferences::all_distinct(s.bindings()),
        apply_outcome(e.texts(), r),
    ensures
        r matches Ok(t) && t.bindings() == s.bindings(),
{
    crate::preferences::lemma_parse_four_texts(s);
    crate::preferences::lemma_first_conflict_sound(s.bindings());
}

/// The text of a captured key combination: the held modifiers in the order
/// Ctrl, Alt, Shift, Super, then the key, joined by `+`.
pub fn binding_string(ctrl: bool, alt: bool, shift: bool, super_key: bool, key_name: &str) -> (r:
    String)
    ensures
        r@ == binding_text(ctrl, alt, shift, super_key, key_name@),
{
    let b = ShortcutBinding { ctrl, alt, shift, super_key, key: owned(key_name) };
    b.text()
}

/// How a key is shown on its badge.
pub open spec fn pretty_key_spec(key: Seq<char>) -> Seq<char> {
    let lower = ascii_lowercase(key);
    if lower == seq!['a', 'r', 'r', 'o', 'w', 'u', 'p'] {
        "↑"@
    } else if lower == seq!['a', 'r', 'r', 'o', 'w', 'd', 'o', 'w', 'n'] {
        "↓"@
    } else if lower == seq!['a', 'r', 'r', 'o', 'w', 'l', 'e', 'f', 't'] {
        "←"@
    } else if lower == seq!['a', 'r', 'r', 'o', 'w', 'r', 'i', 'g', 'h', 't'] {
        "→"@
    } else if lower == seq!['e', 's', 'c', 'a', 'p', 'e'] {
        "Esc"@
    } else if lower == seq!['e', 'n', 't', 'e', 'r'] || lower == seq!['r', 'e', 't', 'u', 'r', 'n'] {
        "Enter"@
    } else if lower == seq!['s', 'p', 'a', 'c', 'e'] {
        "Space"@
    } else if lower.len() == 1 && (lower[0] as u32) < 128 {
        ascii_uppercase(lower)
    } else if key.len() > 0 {
        seq![crate::text::ascii_upper(key[0])] + key.drop_first()
    } else {
        key
    }
}

/// Each arrow key, named in any mix of cases, is shown by the arrow sign
/// that points its way: left `\u{2190}`, up `\u{2191}`, right `\u{2192}`,
/// down `\u{2193}`.
pub proof fn lemma_arrow_keys_point_their_way(key: Seq<char>)
    ensures
        ascii_lowercase(key) == ascii_lowercase("ArrowLeft"@) ==> pretty_key_spec(key) == seq![
            '\u{2190}',
        ],
        ascii_lowercase(key) == ascii_lowercase("ArrowUp"@) ==> pretty_key_spec(key) == seq![
            '\u{2191}',
        ],
        ascii_lowercase(key) == ascii_lowercase("ArrowRight"@) ==> pretty_key_spec(key) == seq![
            '\u{2192}',
        ],
        ascii_lowercase(key) == ascii_lowercase("ArrowDown"@) ==> pretty_key_spec(key) == seq![
            '\u{2193}',
        ],
{
    reveal_strlit("ArrowLeft");
    reveal_strlit("ArrowUp");
    reveal_strlit("ArrowRight");
    reveal_strlit("ArrowDown");
    reveal_strlit("\u{2190}");
    reveal_strlit("\u{2191}");
    reveal_strlit("\u{2192}");
    reveal_strlit("\u{2193}");
    assert(ascii_lowercase("ArrowLeft"@) =~= seq!['a', 'r', 'r', 'o', 'w', 'l', 'e', 'f', 't']);
    assert(ascii_lowercase("ArrowUp"@) =~= seq!['a', 'r', 'r', 'o', 'w', 'u', 'p']);
    assert(ascii_lowercase("ArrowRight"@) =~= seq!['a', 'r', 'r', 'o', 'w', 'r', 'i', 'g', 'h', 't']);
    assert(ascii_lowercase("ArrowDown"@) =~= seq!['a', 'r', 'r', 'o', 'w', 'd', 'o', 'w', 'n']);
    assert("\u{2190}"@ =~= seq!['\u{2190}']);
    assert("\u{2191}"@ =~= seq!['\u{2191}']);
    assert("\u{2192}"@ =~= seq!['\u{2192}']);
    assert("\u{2193}"@ =~= seq!['\u{2193}']);
}

/// Escape is shown as `Esc`, Enter and Return as `Enter`, Space as
/// `Space`, in any mix of cases; a single ASCII letter is shown in upper
/// case.
pub proof fn lemma_named_keys_shown(key: Seq<char>)
    ensures
        ascii_lowercase(key) == ascii_lowercase("Escape"@) ==> pretty_key_spec(key) == seq![
            'E',
            's',
            'c',
        ],
        ascii_lowercase(key) == ascii_lowercase("Enter"@) ==> pretty_key_spec(key) == seq![
            'E',
            'n',
            't',
            'e',
            'r',
        ],
        ascii_lowercase(key) == ascii_lowercase("Return"@) ==> pretty_key_spec(key) == seq![
            'E',
            'n',
            't',
            'e',
            'r',
        ],
        ascii_lowercase(key) == ascii_lowercase("Space"@) ==> pretty_key_spec(key) == seq![
            'S',
            'p',
            'a',
            'c',
            'e',
        ],
        key.len() == 1 && 'a' <= key[0] <= 'z' ==> pretty_key_spec(key) == seq![
            ((key[0] as u32) - 32) as char,
        ],
        key.len() == 1 && 'A' <= key[0] <= 'Z' ==> pretty_key_spec(key) == key,
{
    reveal_strlit("Escape");
    reveal_strlit("Enter");
    reveal_strlit("Return");
    reveal_strlit("Space");
    reveal_strlit("Esc");
    assert(ascii_lowercase("Escape"@) =~= seq!['e', 's', 'c', 'a', 'p', 'e']);
    assert(ascii_lowercase("Enter"@) =~= seq!['e', 'n', 't', 'e', 'r']);
    assert(ascii_lowercase("Return"@) =~= seq!['r', 'e', 't', 'u', 'r', 'n']);
    assert(ascii_lowercase("Space"@) =~= seq!['s', 'p', 'a', 'c', 'e']);
    assert("Esc"@ =~= seq!['E', 's', 'c']);
    assert("Enter"@ =~= seq!['E', 'n', 't', 'e', 'r']);
    assert("Space"@ =~= seq!['S', 'p', 'a', 'c', 'e']);
    if key.len() == 1 && ('a' <= key[0] <= 'z' || 'A' <= key[0] <= 'Z') {
        let lower = ascii_lowercase(key);
        assert(lower.len() == 1 && 'a' <= lower[0] <= 'z');
        assert(lower != seq!['a', 'r', 'r', 'o', 'w', 'u', 'p']);
        assert(lower != seq!['a', 'r', 'r', 'o', 'w', 'd', 'o', 'w', 'n']);
        assert(lower != seq!['a', 'r', 'r', 'o', 'w', 'l', 'e', 'f', 't']);
        assert(lower != seq!['a', 'r', 'r', 'o', 'w', 'r', 'i', 'g', 'h', 't']);
        assert(lower != seq!['e', 's', 'c', 'a', 'p', 'e']);
        assert(lower != seq!['e', 'n', 't', 'e', 'r']);
        assert(lower != seq!['r', 'e', 't', 'u', 'r', 'n']);
        assert(lower != seq!['s', 'p', 'a', 'c', 'e']);
        assert(ascii_uppercase(lower) =~= seq![crate::text::ascii_upper(lower[0])]);
    }
}

/// How a key is shown on its badge: arrows as arrow signs, `Esc`, `Enter`,
/// `Space`, a single ASCII character in upper case, and any other name with
/// its first letter in upper case.
pub fn pretty_key(key: &str) -> (r: String)
    ensures
        r@ == pretty_key_spec(key@),
{
    let chars = chars_of(key);
    let lower = ascii_lowercase_chars(chars.as_slice());
    let eq = |w: &[char]| -> (b: bool)
        ensures
            b == (lower@ == w@),
        { crate::shortcut::equal_chars(lower.as_slice(), w) };
    let arrowup = vec!['a', 'r', 'r', 'o', 'w', 'u', 'p'];
    let arrowdown = vec!['a', 'r', 'r', 'o', 'w', 'd', 'o', 'w', 'n'];
    let arrowleft = vec!['a', 'r', 'r', 'o', 'w', 'l', 'e', 'f', 't'];
    let arrowright = vec!['a', 'r', 'r', 'o', 'w', 'r', 'i', 'g', 'h', 't'];
    let escape = vec!['e', 's', 'c', 'a', 'p', 'e'];
    let enter = vec!['e', 'n', 't', 'e', 'r'];
    let ret = vec!['r', 'e', 't', 'u', 'r', 'n'];
    let space = vec!['s', 'p', 'a', 'c', 'e'];
    assert(arrowup@ =~= seq!['a', 'r', 'r', 'o', 'w', 'u', 'p']);
    assert(arrowdown@ =~= seq!['a', 'r', 'r', 'o', 'w', 'd', 'o', 'w', 'n']);
    assert(arrowleft@ =~= seq!['a', 'r', 'r', 'o', 'w', 'l', 'e', 'f', 't']);
    assert(arrowright@ =~= seq!['a', 'r', 'r', 'o', 'w', 'r', 'i', 'g', 'h', 't']);
    assert(escape@ =~= seq!['e', 's', 'c', 'a', 'p', 'e']);
    assert(enter@ =~= seq!['e', 'n', 't', 'e', 'r']);
    assert(ret@ =~= seq!['r', 'e', 't', 'u', 'r', 'n']);
    assert(space@ =~= seq!['s', 'p', 'a', 'c', 'e']);
    if eq(arrowup.as_slice()) {
        owned("↑")
    } else if eq(arrowdown.as_slice()) {
        owned("↓")
    } else if eq(arrowleft.as_slice()) {
        owned("←")
    } else if eq(arrowright.as_slice()) {
        owned("→")
    } else if eq(escape.as_slice()) {
        owned("Esc")
    } else if eq(enter.as_slice()) || eq(ret.as_slice()) {
        owned("Enter")
    } else if eq(space.as_slice()) {
        owned("Space")
    } else if lower.len() == 1 && (lower[0] as u32) < 128 {
        let upper = crate::text::ascii_uppercase_chars(lower.as_slice());
        string_from(upper.as_slice())
    } else if chars.len() > 0 {
        let mut out: Vec<char> = Vec::new();
        let c = chars[0];
        let u = if 'a' <= c && c <= 'z' {
            crate::text::char_from_ascii(c as u8 - 32)
        } else {
            c
        };
        out.push(u);
        let mut i: usize = 1;
        while i < chars.len()
            invariant
                1 <= i <= chars.len(),
                out@ == seq![u] + chars@.subrange(1, i as int),
            decreases chars.len() - i,
        {
            out.push(chars[i]);
            i = i + 1;
            assert(out@ =~= seq![u] + chars@.subrange(1, i as int));
        }
        assert(chars@.subrange(1, chars.len() as int) =~= chars@.drop_first());
        string_from(out.as_slice())
    } else {
        owned(key)
    }
}

} // verus!
