//! The pages of the preferences window and what the general page reports.
use vstd::prelude::*;
use crate::preferences::ThemeSchemeId;
use crate::model::ThemeColorField;
use crate::text::{ascii_lowercase, trim, contains_seq, chars_of, trim_chars, ascii_lowercase_chars, contains_chars};

verus! {

/// The pages of the preferences window.
#[derive(Debug, Clone, Copy, PartialEq, Eq, Structural)]
pub enum PreferencesTab {
    General,
    Shortcuts,
}

impl PreferencesTab {
    /// The page's name in the sidebar.
    pub fn label(self) -> (r: &'static str)
        ensures
            r@ == (match self {
                PreferencesTab::General => "General"@,
                PreferencesTab::Shortcuts => "Shortcuts"@,
            }),
    {
        match self {
            PreferencesTab::General => "General",
            PreferencesTab::Shortcuts => "Shortcuts",
        }
    }

    /// The page's icon glyph.
    pub fn icon(self) -> (r: &'static str)
        ensures
            r@ == (match self {
                PreferencesTab::General => "⚙"@,
                PreferencesTab::Shortcuts => "⌨"@,
            }),
    {
        match self {
            PreferencesTab::General => "⚙",
            PreferencesTab::Shortcuts => "⌨",
        }
    }
}

/// What a pass over the general page asks for: whether a setting changed,
/// and the colour texts typed, by scheme and field, in the order typed.
pub struct GeneralActions {
    pub changed: bool,
    pub theme_updates: Vec<(ThemeSchemeId, ThemeColorField, String)>,
}

impl GeneralActions {
    /// Nothing changed and nothing typed.
    pub fn none() -> (r: Self)
        ensures
            !r.changed,
            r.theme_updates@.len() == 0,
    {
        GeneralActions { changed: false, theme_updates: Vec::new() }
    }
}

/// Whether a shortcut's caption is shown for the text typed into the
/// shortcut search: the trimmed, ASCII lower-cased search is empty or occurs
/// in the ASCII lower-cased caption.
pub open spec fn caption_shown(label: Seq<char>, search: Seq<char>) -> bool {
    let q = ascii_lowercase(trim(search));
    q.len() == 0 || contains_seq(ascii_lowercase(label), q)
}

/// Whether `label` is shown for `search`; see `caption_shown`.
pub fn shortcut_search_matches(label: &str, search: &str) -> (r: bool)
    ensures
        r == caption_shown(label@, search@),
{
    let s = chars_of(search);
    let t = trim_chars(s.as_slice());
    let q = ascii_lowercase_chars(t.as_slice());
    if q.len() == 0 {
        return true;
    }
    let l = chars_of(label);
    let lower = ascii_lowercase_chars(l.as_slice());
    contains_chars(lower.as_slice(), q.as_slice())
}

/// The captions among the first `n` that are shown for `search`, as
/// indices in list order.
pub open spec fn shown_captions(labels: Seq<&str>, search: Seq<char>, n: int) -> Seq<usize>
    decreases n,
{
    if n <= 0 {
        Seq::empty()
    } else if caption_shown(labels[n - 1]@, search) {
        shown_captions(labels, search, n - 1).push((n - 1) as usize)
    } else {
        shown_captions(labels, search, n - 1)
    }
}

/// The indices, in list order, of the captions shown for `search`.
pub fn matching_shortcut_captions(labels: &[&str], search: &str) -> (r: Vec<usize>)
    ensures
        r@ == shown_captions(labels@, search@, labels@.len() as int),
{
    let mut r: Vec<usize> = Vec::new();
    let mut i: usize = 0;
    while i < labels.len()
        invariant
            i <= labels@.len(),
            r@ == shown_captions(labels@, search@, i as int),
        decreases labels@.len() - i,
    {
        if shortcut_search_matches(labels[i], search) {
            r.push(i);
        }
        i = i + 1;
    }
    r
}

} // verus!
