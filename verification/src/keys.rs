//! What a key press in the launcher does: which shortcut it matches, and
//! the action that follows.
use vstd::prelude::*;
use crate::shortcut::{ShortcutBinding, BindingParts, normalize_key, normalize_binding_key};
use crate::preferences::{ShortcutPreferences, all_distinct};
use crate::shortcut::same_binding;

verus! {

/// The modifier keys held during a key press.
#[derive(Debug, Clone, Copy, PartialEq, Eq, Structural)]
pub struct HeldModifiers {
    pub ctrl: bool,
    pub alt: bool,
    pub shift: bool,
    pub logo: bool,
}

/// Whether a key press matches a binding: exactly the binding's modifiers
/// are held, and the key has a name that normalises (`normalize_key`) to
/// the binding's key.
pub open spec fn binding_matches(b: BindingParts, held: HeldModifiers, pressed: Option<Seq<char>>) -> bool {
    &&& b.ctrl == held.ctrl
    &&& b.alt == held.alt
    &&& b.shift == held.shift
    &&& b.super_key == held.logo
    &&& match pressed {
        Some(name) => normalize_key(name) == normalize_key(b.key),
        None => false,
    }
}

/// The view of an optional key name.
pub open spec fn name_of(pressed: Option<&str>) -> Option<Seq<char>> {
    match pressed {
        Some(s) => Some(s@),
        None => None,
    }
}

/// Whether a key press matches `binding`; see
/// `binding_matches`.
pub fn matches_shortcut(binding: &ShortcutBinding, held: HeldModifiers, pressed: Option<&str>) -> (r: bool)
    ensures
        r == binding_matches(binding.parts(), held, name_of(pressed)),
{
    if binding.ctrl != held.ctrl || binding.alt != held.alt || binding.shift != held.shift
        || binding.super_key != held.logo {
        return false;
    }
    let name = match pressed {
        Some(n) => n,
        None => return false,
    };
    let a = normalize_binding_key(name);
    let b = binding.normalized_key();
    a == b
}

/// What the launcher does for a key press.
#[derive(Debug, Clone, Copy, PartialEq, Eq, Structural)]
pub enum KeyAction {
    /// Hide the launcher.
    Hide,
    /// Open the result list of an empty query.
    Expand,
    /// Select the next result.
    MoveDown,
    /// Select the previous result.
    MoveUp,
    /// Start the application at this index.
    Launch(usize),
    /// Nothing.
    Nothing,
}

/// The action of a key press: the close shortcut hides; the expand/move
/// down shortcut opens a collapsed list of an empty query, else moves
/// down; the move up shortcut moves up; the launch shortcut starts the
/// selected application if one is selected. Shortcuts are tried in that
/// order; a press that matches none does nothing.
pub open spec fn key_action_for(
    s: Seq<BindingParts>,
    held: HeldModifiers,
    pressed: Option<Seq<char>>,
    query_empty: bool,
    collapsed: bool,
    selected: Option<usize>,
) -> KeyAction {
    if binding_matches(s[3], held, pressed) {
        KeyAction::Hide
    } else if binding_matches(s[1], held, pressed) {
        if query_empty && collapsed {
            KeyAction::Expand
        } else {
            KeyAction::MoveDown
        }
    } else if binding_matches(s[2], held, pressed) {
        KeyAction::MoveUp
    } else if binding_matches(s[0], held, pressed) {
        match selected {
            Some(i) => KeyAction::Launch(i),
            None => KeyAction::Nothing,
        }
    } else {
        KeyAction::Nothing
    }
}

/// The action of a key press in the launcher;
/// see `key_action_for`. `collapsed` says the result list is closed and
/// `selected` is the application of the selected result, if any.
pub fn launcher_key_action(
    shortcuts: &ShortcutPreferences,
    held: HeldModifiers,
    pressed: Option<&str>,
    query_empty: bool,
    collapsed: bool,
    selected: Option<usize>,
) -> (a: KeyAction)
    ensures
        a == key_action_for(shortcuts.bindings(), held, name_of(pressed), query_empty, collapsed, selected),
{
    if matches_shortcut(&shortcuts.close_launcher, held, pressed) {
        return KeyAction::Hide;
    }
    if matches_shortcut(&shortcuts.expand_or_move_down, held, pressed) {
        if query_empty && collapsed {
            return KeyAction::Expand;
        }
        return KeyAction::MoveDown;
    }
    if matches_shortcut(&shortcuts.move_up, held, pressed) {
        return KeyAction::MoveUp;
    }
    if matches_shortcut(&shortcuts.launch_selected, held, pressed) {
        if let Some(i) = selected {
            return KeyAction::Launch(i);
        }
    }
    KeyAction::Nothing
}

/// The modifiers a binding requires.
pub open spec fn held_for(b: BindingParts) -> HeldModifiers {
    HeldModifiers { ctrl: b.ctrl, alt: b.alt, shift: b.shift, logo: b.super_key }
}

/// The action bound to shortcut `k` of the order launch, expand/move down,
/// move up, close.
pub open spec fn action_of_shortcut(k: int, query_empty: bool, collapsed: bool, selected: Option<usize>) -> KeyAction {
    if k == 3 {
        KeyAction::Hide
    } else if k == 1 {
        if query_empty && collapsed {
            KeyAction::Expand
        } else {
            KeyAction::MoveDown
        }
    } else if k == 2 {
        KeyAction::MoveUp
    } else {
        match selected {
            Some(i) => KeyAction::Launch(i),
            None => KeyAction::Nothing,
        }
    }
}

/// With four distinct shortcuts, pressing a shortcut's own key with its own
/// modifiers performs that shortcut's action and no other.
pub proof fn lemma_distinct_shortcuts_dispatch(
    s: Seq<BindingParts>,
    k: int,
    query_empty: bool,
    collapsed: bool,
    selected: Option<usize>,
)
    requires
        s.len() == 4,
        all_distinct(s),
        0 <= k < 4,
    ensures
        key_action_for(s, held_for(s[k]), Some(s[k].key), query_empty, collapsed, selected)
            == action_of_shortcut(k, query_empty, collapsed, selected),
{
    assert forall|j: int| 0 <= j < 4 implies binding_matches(s[j], held_for(s[k]), Some(s[k].key))
        == (j == k) by {
        if j < k {
            assert(!same_binding(s[j], s[k]));
        } else if k < j {
            assert(!same_binding(s[k], s[j]));
        }
    }
}

/// The state behind the Alt action overlay: whether Alt actions wait for
/// Alt to be released, and whether the next query change is to be ignored
/// (the key that triggered an action also reaches the search field).
#[derive(Debug)]
pub struct AltActionState {
    suppress_alt_until_release: bool,
    suppress_next_query_change: bool,
}

impl AltActionState {
    pub closed spec fn alt_suppressed(&self) -> bool {
        self.suppress_alt_until_release
    }

    pub closed spec fn query_change_suppressed(&self) -> bool {
        self.suppress_next_query_change
    }

    /// Nothing suppressed.
    pub fn new() -> (r: Self)
        ensures
            !r.alt_suppressed(),
            !r.query_change_suppressed(),
    {
        AltActionState { suppress_alt_until_release: false, suppress_next_query_change: false }
    }

    /// Alt actions wait until Alt is released.
    pub fn suppress_alt_actions_until_release(&mut self)
        ensures
            final(self).alt_suppressed(),
            final(self).query_change_suppressed() == old(self).query_change_suppressed(),
    {
        self.suppress_alt_until_release = true;
    }

    /// The next query change is ignored.
    pub fn suppress_next_query_change(&mut self)
        ensures
            final(self).query_change_suppressed(),
            final(self).alt_suppressed() == old(self).alt_suppressed(),
    {
        self.suppress_next_query_change = true;
    }

    /// Follows the held modifiers: releasing Alt lifts both suppressions.
    pub fn sync_with_modifiers(&mut self, alt_held: bool)
        ensures
            !alt_held ==> !final(self).alt_suppressed() && !final(self).query_change_suppressed(),
            alt_held ==> final(self).alt_suppressed() == old(self).alt_suppressed()
                && final(self).query_change_suppressed() == old(self).query_change_suppressed(),
    {
        if !alt_held {
            self.suppress_alt_until_release = false;
            self.suppress_next_query_change = false;
        }
    }

    /// Whether a query change was to be ignored; the suppression is used up.
    pub fn consume_suppressed_query_change(&mut self) -> (r: bool)
        ensures
            r == old(self).query_change_suppressed(),
            !final(self).query_change_suppressed(),
            final(self).alt_suppressed() == old(self).alt_suppressed(),
    {
        if !self.suppress_next_query_change {
            return false;
        }
        self.suppress_next_query_change = false;
        true
    }

    /// Whether the Alt action overlay is shown: the list is open, an
    /// application is selected, and Alt is held without suppression or the
    /// overlay is pinned.
    pub fn overlay_shown(&self, expanded: bool, app_selected: bool, alt_held: bool, pinned: bool) -> (r: bool)
        ensures
            r == (expanded && app_selected && ((alt_held && !self.alt_suppressed()) || pinned)),
    {
        expanded && app_selected && ((alt_held && !self.suppress_alt_until_release) || pinned)
    }

    /// Whether a change of the search text is taken as the new query: not
    /// while Alt is held over an open list with an application selected
    /// (the key is an Alt action), and not when it was to be ignored (which
    /// uses up the suppression).
    pub fn accept_query_change(&mut self, alt_held: bool, expanded: bool, app_selected: bool) -> (r: bool)
        ensures
            (alt_held && expanded && app_selected) ==> !r && final(self).query_change_suppressed()
                == old(self).query_change_suppressed(),
            !(alt_held && expanded && app_selected) ==> r == !old(self).query_change_suppressed()
                && !final(self).query_change_suppressed(),
            final(self).alt_suppressed() == old(self).alt_suppressed(),
    {
        if alt_held && expanded && app_selected {
            return false;
        }
        !self.consume_suppressed_query_change()
    }
}

} // verus!
