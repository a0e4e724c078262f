//! The launcher's preferences: colour schemes, theme choice and keyboard
//! shortcuts, with their defaults, the hex colour normalisation and the
//! check that no two shortcuts collide.
use vstd::prelude::*;
use crate::text::{chars_of, string_from, trim, trim_chars, ascii_uppercase, ascii_uppercase_chars, owned};
use crate::shortcut::{ShortcutBinding, BindingParts, same_binding, same_shortcut};

verus! {

/// The two colour schemes a user can edit.
#[derive(Debug, Clone, Copy, PartialEq, Eq, Structural)]
pub enum ThemeSchemeId {
    Light,
    Dark,
}

/// Which theme the launcher follows: the system's, a built-in one, or the
/// custom colours.
#[derive(Debug, Clone, Copy, PartialEq, Eq, Structural)]
pub enum ThemePreference {
    System,
    Light,
    Dark,
    Custom,
}

impl ThemePreference {
    /// The name shown for the choice.
    pub fn label(self) -> (r: &'static str)
        ensures
            r@ == (match self {
                ThemePreference::System => "System"@,
                ThemePreference::Light => "Light"@,
                ThemePreference::Dark => "Dark"@,
                ThemePreference::Custom => "Custom"@,
            }),
    {
        match self {
            ThemePreference::System => "System",
            ThemePreference::Light => "Light",
            ThemePreference::Dark => "Dark",
            ThemePreference::Custom => "Custom",
        }
    }
}

/// The three seed colours of a scheme, as `#RRGGBB` or `#RRGGBBAA` text.
#[derive(Debug)]
pub struct ThemeColors {
    pub background: String,
    pub text: String,
    pub accent: String,
}

/// The built-in seed colours of a scheme.
pub struct ThemeSeed {
    pub background: &'static str,
    pub text: &'static str,
    pub accent: &'static str,
}

/// The light scheme's built-in colours.
pub fn light_seed() -> (s: ThemeSeed)
    ensures
        s.background@ == "#F8F9FB"@,
        s.text@ == "#1C222A"@,
        s.accent@ == "#416EF5"@,
{
    ThemeSeed { background: "#F8F9FB", text: "#1C222A", accent: "#416EF5" }
}

/// The dark scheme's built-in colours.
pub fn dark_seed() -> (s: ThemeSeed)
    ensures
        s.background@ == "#151516"@,
        s.text@ == "#EBEDF2"@,
        s.accent@ == "#5E8BFF"@,
{
    ThemeSeed { background: "#151516", text: "#EBEDF2", accent: "#5E8BFF" }
}

impl ThemeColors {
    /// The colours of a built-in seed.
    pub fn from_seed(seed: &ThemeSeed) -> (c: Self)
        ensures
            c.background@ == seed.background@,
            c.text@ == seed.text@,
            c.accent@ == seed.accent@,
    {
        ThemeColors {
            background: owned(seed.background),
            text: owned(seed.text),
            accent: owned(seed.accent),
        }
    }

    /// A copy of these colours.
    pub fn copied(&self) -> (c: Self)
        ensures
            c.background@ == self.background@,
            c.text@ == self.text@,
            c.accent@ == self.accent@,
    {
        ThemeColors {
            background: self.background.clone(),
            text: self.text.clone(),
            accent: self.accent.clone(),
        }
    }
}

/// The editable light and dark schemes.
#[derive(Debug)]
pub struct ThemeSchemes {
    pub light: ThemeColors,
    pub dark: ThemeColors,
}

/// Appearance settings: the theme choice, both schemes and the custom colours.
#[derive(Debug)]
pub struct AppearancePreferences {
    pub theme: ThemePreference,
    pub schemes: ThemeSchemes,
    pub custom_theme: ThemeColors,
}

impl AppearancePreferences {
    /// The colours of one scheme.
    pub open spec fn scheme_spec(&self, scheme: ThemeSchemeId) -> &ThemeColors {
        match scheme {
            ThemeSchemeId::Light => &self.schemes.light,
            ThemeSchemeId::Dark => &self.schemes.dark,
        }
    }

    /// The colours of one scheme.
    pub fn scheme(&self, scheme: ThemeSchemeId) -> (c: &ThemeColors)
        ensures
            c == self.scheme_spec(scheme),
    {
        match scheme {
            ThemeSchemeId::Light => &self.schemes.light,
            ThemeSchemeId::Dark => &self.schemes.dark,
        }
    }
}

/// The four launcher shortcuts.
#[derive(Debug)]
pub struct ShortcutPreferences {
    pub launch_selected: ShortcutBinding,
    pub expand_or_move_down: ShortcutBinding,
    pub move_up: ShortcutBinding,
    pub close_launcher: ShortcutBinding,
}

impl ShortcutPreferences {
    /// The bindings in the order launch, expand/move down, move up, close.
    pub open spec fn bindings(&self) -> Seq<BindingParts> {
        seq![
            self.launch_selected.parts(),
            self.expand_or_move_down.parts(),
            self.move_up.parts(),
            self.close_launcher.parts(),
        ]
    }

    /// A copy of these shortcuts.
    pub fn copied(&self) -> (s: Self)
        ensures
            s.bindings() == self.bindings(),
    {
        ShortcutPreferences {
            launch_selected: self.launch_selected.copied(),
            expand_or_move_down: self.expand_or_move_down.copied(),
            move_up: self.move_up.copied(),
            close_launcher: self.close_launcher.copied(),
        }
    }

    /// The built-in shortcuts: Enter, ArrowDown, ArrowUp and Escape.
    pub fn defaults() -> (s: Self)
        ensures
            s.bindings() == seq![
                plain_parts("Enter"@),
                plain_parts("ArrowDown"@),
                plain_parts("ArrowUp"@),
                plain_parts("Escape"@),
            ],
    {
        ShortcutPreferences {
            launch_selected: ShortcutBinding::plain("Enter"),
            expand_or_move_down: ShortcutBinding::plain("ArrowDown"),
            move_up: ShortcutBinding::plain("ArrowUp"),
            close_launcher: ShortcutBinding::plain("Escape"),
        }
    }
}

/// Every key of the shortcuts reads back from its text: not empty, no
/// surrounding white space, no `+`.
pub open spec fn keys_well_formed(b: Seq<BindingParts>) -> bool {
    forall|i: int| 0 <= i < b.len() ==> crate::shortcut::key_well_formed(#[trigger] b[i].key)
}

/// Reading back the texts of four shortcuts gives the shortcuts.
pub proof fn lemma_parse_four_texts(s: &ShortcutPreferences)
    requires
        keys_well_formed(s.bindings()),
    ensures
        parse_four(
            seq![
                s.launch_selected.text_spec(),
                s.expand_or_move_down.text_spec(),
                s.move_up.text_spec(),
                s.close_launcher.text_spec(),
            ],
        ) == Ok::<Seq<BindingParts>, (int, crate::shortcut::BindingErrorKind)>(s.bindings()),
{
    let b = s.bindings();
    assert(crate::shortcut::key_well_formed(b[0].key));
    assert(crate::shortcut::key_well_formed(b[1].key));
    assert(crate::shortcut::key_well_formed(b[2].key));
    assert(crate::shortcut::key_well_formed(b[3].key));
    crate::shortcut::lemma_binding_reads_back(&s.launch_selected);
    crate::shortcut::lemma_binding_reads_back(&s.expand_or_move_down);
    crate::shortcut::lemma_binding_reads_back(&s.move_up);
    crate::shortcut::lemma_binding_reads_back(&s.close_launcher);
}

/// A binding of `key` with no modifier.
pub open spec fn plain_parts(key: Seq<char>) -> BindingParts {
    BindingParts { ctrl: false, alt: false, shift: false, super_key: false, key }
}

/// All preferences the launcher and its preferences window share.
#[derive(Debug)]
pub struct AppPreferences {
    pub appearance: AppearancePreferences,
    pub shortcuts: ShortcutPreferences,
}

/// Whether `p` holds the built-in preferences: the system theme, the
/// built-in light and dark schemes (the custom colours start as the dark
/// ones) and the built-in shortcuts.
pub open spec fn is_default_preferences(p: &AppPreferences) -> bool {
    &&& p.appearance.theme == ThemePreference::System
    &&& p.appearance.schemes.light.background@ == "#F8F9FB"@
    &&& p.appearance.schemes.light.text@ == "#1C222A"@
    &&& p.appearance.schemes.light.accent@ == "#416EF5"@
    &&& p.appearance.schemes.dark.background@ == "#151516"@
    &&& p.appearance.schemes.dark.text@ == "#EBEDF2"@
    &&& p.appearance.schemes.dark.accent@ == "#5E8BFF"@
    &&& p.appearance.custom_theme.background@ == "#151516"@
    &&& p.appearance.custom_theme.text@ == "#EBEDF2"@
    &&& p.appearance.custom_theme.accent@ == "#5E8BFF"@
    &&& p.shortcuts.bindings() == seq![
        plain_parts("Enter"@),
        plain_parts("ArrowDown"@),
        plain_parts("ArrowUp"@),
        plain_parts("Escape"@),
    ]
}

impl AppPreferences {
    /// The built-in preferences; see `is_default_preferences`.
    pub fn defaults() -> (p: Self)
        ensures
            is_default_preferences(&p),
    {
        let light = light_seed();
        let dark = dark_seed();
        AppPreferences {
            appearance: AppearancePreferences {
                theme: ThemePreference::System,
                schemes: ThemeSchemes {
                    light: ThemeColors::from_seed(&light),
                    dark: ThemeColors::from_seed(&dark),
                },
                custom_theme: ThemeColors::from_seed(&dark),
            },
            shortcuts: ShortcutPreferences::defaults(),
        }
    }
}

/// `s` without any leading `#`.
pub open spec fn strip_hashes(s: Seq<char>) -> Seq<char>
    decreases s.len(),
{
    if s.len() > 0 && s[0] == '#' {
        strip_hashes(s.drop_first())
    } else {
        s
    }
}

pub open spec fn is_hex_digit(c: char) -> bool {
    ('0' <= c <= '9') || ('a' <= c <= 'f') || ('A' <= c <= 'F')
}

/// A colour as the preferences store it: white space and leading `#` are
/// dropped, six or eight hexadecimal digits must remain, and the result is
/// `#` followed by the digits in upper case.
pub open spec fn normalized_hex(value: Seq<char>) -> Option<Seq<char>> {
    let digits = strip_hashes(trim(value));
    if (digits.len() == 6 || digits.len() == 8) && forall|i: int|
        0 <= i < digits.len() ==> is_hex_digit(#[trigger] digits[i]) {
        Some(seq!['#'] + ascii_uppercase(digits))
    } else {
        None
    }
}

pub(crate) proof fn lemma_strip_hashes_skip(s: Seq<char>, i: int)
    requires
        0 <= i <= s.len(),
        forall|k: int| 0 <= k < i ==> #[trigger] s[k] == '#',
    ensures
        strip_hashes(s) == strip_hashes(s.subrange(i, s.len() as int)),
    decreases i,
{
    if i > 0 {
        lemma_strip_hashes_skip(s.drop_first(), i - 1);
        assert(s.drop_first().subrange(i - 1, s.drop_first().len() as int) =~= s.subrange(
            i,
            s.len() as int,
        ));
    } else {
        assert(s.subrange(0, s.len() as int) =~= s);
    }
}

/// A normalised colour normalises to itself.
pub proof fn lemma_normalized_hex_stable(value: Seq<char>)
    ensures
        normalized_hex(value) matches Some(n) ==> normalized_hex(n) == Some(n),
{
    if let Some(n) = normalized_hex(value) {
        let d = strip_hashes(trim(value));
        let u = ascii_uppercase(d);
        assert(n == seq!['#'] + u);
        assert forall|i: int| 0 <= i < u.len() implies is_hex_digit(#[trigger] u[i])
            && crate::text::ascii_upper(u[i]) == u[i] && u[i] != '#' && !crate::text::is_white_space(u[i]) by {
            assert(u[i] == crate::text::ascii_upper(d[i]));
            assert(is_hex_digit(d[i]));
        }
        assert(crate::text::trim_start(n) == n);
        assert(n.last() == u[u.len() - 1]);
        assert(crate::text::trim_end(n) == n);
        assert(trim(n) == n);
        assert(n.drop_first() =~= u);
        assert(strip_hashes(u) == u);
        assert(strip_hashes(n) == u);
        assert(ascii_uppercase(u) =~= u);
    }
}

/// `normalize_hex_color`: the stored form of a colour the user typed, or
/// `None` when it is not six or eight hexadecimal digits.
pub fn normalize_hex_color(value: &str) -> (r: Option<String>)
    ensures
        match normalized_hex(value@) {
            Some(n) => r matches Some(s) && s@ == n,
            None => r is None,
        },
{
    let chars = chars_of(value);
    let t = trim_chars(chars.as_slice());
    let mut i: usize = 0;
    while i < t.len() && t[i] == '#'
        invariant
            i <= t.len(),
            forall|k: int| 0 <= k < i ==> #[trigger] t@[k] == '#',
        decreases t.len() - i,
    {
        i = i + 1;
    }
    proof {
        lemma_strip_hashes_skip(t@, i as int);
    }
    let ghost rest = t@.subrange(i as int, t.len() as int);
    assert(strip_hashes(rest) == rest);
    let n = t.len() - i;
    if n != 6 && n != 8 {
        return None;
    }
    let mut digits: Vec<char> = Vec::new();
    let mut k: usize = i;
    while k < t.len()
        invariant
            i <= k <= t.len(),
            rest == t@.subrange(i as int, t.len() as int),
            strip_hashes(trim(value@)) == rest,
            digits@ == t@.subrange(i as int, k as int),
            forall|q: int| 0 <= q < digits.len() ==> is_hex_digit(#[trigger] digits@[q]),
        decreases t.len() - k,
    {
        let c = t[k];
        if !(('0' <= c && c <= '9') || ('a' <= c && c <= 'f') || ('A' <= c && c <= 'F')) {
            assert(rest[k - i] == c);
            assert(!is_hex_digit(rest[k - i]));
            return None;
        }
        digits.push(c);
        k = k + 1;
        assert(digits@ =~= t@.subrange(i as int, k as int));
    }
    assert(digits@ =~= rest);
    let upper = ascii_uppercase_chars(digits.as_slice());
    let mut out: Vec<char> = Vec::new();
    out.push('#');
    let mut q: usize = 0;
    while q < upper.len()
        invariant
            q <= upper.len(),
            out@ == seq!['#'] + upper@.subrange(0, q as int),
        decreases upper.len() - q,
    {
        out.push(upper[q]);
        q = q + 1;
        assert(out@ =~= seq!['#'] + upper@.subrange(0, q as int));
    }
    assert(upper@.subrange(0, upper.len() as int) =~= upper@);
    Some(string_from(out.as_slice()))
}

/// The six pairs of shortcut positions, in the order they are compared.
pub open spec fn pair_at(p: int) -> (int, int) {
    if p == 0 {
        (0, 1)
    } else if p == 1 {
        (0, 2)
    } else if p == 2 {
        (0, 3)
    } else if p == 3 {
        (1, 2)
    } else if p == 4 {
        (1, 3)
    } else {
        (2, 3)
    }
}

/// The first pair, from pair number `p` on, of positions holding the same
/// shortcut.
pub open spec fn first_conflict_from(b: Seq<BindingParts>, p: int) -> Option<(int, int)>
    decreases 6 - p,
{
    if p < 0 || p >= 6 {
        None
    } else if same_binding(b[pair_at(p).0], b[pair_at(p).1]) {
        Some(pair_at(p))
    } else {
        first_conflict_from(b, p + 1)
    }
}

/// The first pair `(i, j)`, `i < j`, in the order (0,1), (0,2), (0,3), (1,2),
/// (1,3), (2,3), whose shortcuts are the same.
pub open spec fn first_conflict(b: Seq<BindingParts>) -> Option<(int, int)> {
    first_conflict_from(b, 0)
}

/// No two of the four shortcuts are the same.
pub open spec fn all_distinct(b: Seq<BindingParts>) -> bool {
    forall|i: int, j: int| 0 <= i < j < 4 ==> !same_binding(#[trigger] b[i], #[trigger] b[j])
}

/// When no pair conflicts, the four shortcuts are pairwise distinct, and a
/// reported pair does hold the same shortcut twice.
pub proof fn lemma_first_conflict_sound(b: Seq<BindingParts>)
    ensures
        first_conflict(b) is None <==> all_distinct(b),
        first_conflict(b) matches Some((i, j)) ==> 0 <= i < j < 4 && same_binding(b[i], b[j]),
{
    reveal_with_fuel(first_conflict_from, 7);
    if all_distinct(b) {
        assert(!same_binding(b[0], b[1]));
        assert(!same_binding(b[0], b[2]));
        assert(!same_binding(b[0], b[3]));
        assert(!same_binding(b[1], b[2]));
        assert(!same_binding(b[1], b[3]));
        assert(!same_binding(b[2], b[3]));
    }
    if first_conflict(b) is None {
        assert forall|i: int, j: int| 0 <= i < j < 4 implies !same_binding(
            #[trigger] b[i],
            #[trigger] b[j],
        ) by {
            if i == 0 && j == 1 {
            } else if i == 0 && j == 2 {
            } else if i == 0 && j == 3 {
            } else if i == 1 && j == 2 {
            } else if i == 1 && j == 3 {
            } else {
            }
        }
    }
}

/// The first conflicting pair of four shortcuts, compared with `same_shortcut`.
pub fn find_conflict(shortcuts: &ShortcutPreferences) -> (r: Option<(usize, usize)>)
    ensures
        match first_conflict(shortcuts.bindings()) {
            Some((i, j)) => r == Some((i as usize, j as usize)),
            None => r is None,
        },
{
    reveal_with_fuel(first_conflict_from, 7);
    let b = [
        &shortcuts.launch_selected,
        &shortcuts.expand_or_move_down,
        &shortcuts.move_up,
        &shortcuts.close_launcher,
    ];
    if same_shortcut(b[0], b[1]) {
        return Some((0, 1));
    }
    if same_shortcut(b[0], b[2]) {
        return Some((0, 2));
    }
    if same_shortcut(b[0], b[3]) {
        return Some((0, 3));
    }
    if same_shortcut(b[1], b[2]) {
        return Some((1, 2));
    }
    if same_shortcut(b[1], b[3]) {
        return Some((1, 3));
    }
    if same_shortcut(b[2], b[3]) {
        return Some((2, 3));
    }
    None
}

/// How four shortcut texts (launch, expand/move down, move up, close) are
/// read: each with `parse_binding_text`, in that order, stopping at the first
/// that is refused, which is reported with its position.
pub open spec fn parse_four(t: Seq<Seq<char>>) -> Result<Seq<BindingParts>, (int, crate::shortcut::BindingErrorKind)> {
    match crate::shortcut::parse_binding_text(t[0]) {
        Err(k) => Err((0, k)),
        Ok(b0) => match crate::shortcut::parse_binding_text(t[1]) {
            Err(k) => Err((1, k)),
            Ok(b1) => match crate::shortcut::parse_binding_text(t[2]) {
                Err(k) => Err((2, k)),
                Ok(b2) => match crate::shortcut::parse_binding_text(t[3]) {
                    Err(k) => Err((3, k)),
                    Ok(b3) => Ok(seq![b0, b1, b2, b3]),
                },
            },
        },
    }
}

/// Reads four shortcut texts; see `parse_four`.
pub fn parse_shortcut_texts(t0: &str, t1: &str, t2: &str, t3: &str) -> (r: Result<
    ShortcutPreferences,
    (usize, crate::shortcut::ShortcutParseError),
>)
    ensures
        match parse_four(seq![t0@, t1@, t2@, t3@]) {
            Ok(b) => r matches Ok(s) && s.bindings() == b,
            Err((i, k)) => r matches Err((j, e)) && j == i && e.kind() == k,
        },
{
    let b0 = match ShortcutBinding::parse(t0) {
        Ok(b) => b,
        Err(e) => return Err((0, e)),
    };
    let b1 = match ShortcutBinding::parse(t1) {
        Ok(b) => b,
        Err(e) => return Err((1, e)),
    };
    let b2 = match ShortcutBinding::parse(t2) {
        Ok(b) => b,
        Err(e) => return Err((2, e)),
    };
    let b3 = match ShortcutBinding::parse(t3) {
        Ok(b) => b,
        Err(e) => return Err((3, e)),
    };
    let s = ShortcutPreferences {
        launch_selected: b0,
        expand_or_move_down: b1,
        move_up: b2,
        close_launcher: b3,
    };
    assert(s.bindings() =~= seq![b0.parts(), b1.parts(), b2.parts(), b3.parts()]);
    Ok(s)
}

/// The built-in shortcuts read back from their text and are pairwise
/// distinct.
pub proof fn lemma_default_shortcuts_distinct(p: &AppPreferences)
    requires
        is_default_preferences(p),
    ensures
        keys_well_formed(p.shortcuts.bindings()),
        all_distinct(p.shortcuts.bindings()),
{
    reveal_strlit("Enter");
    reveal_strlit("ArrowDown");
    reveal_strlit("ArrowUp");
    reveal_strlit("Escape");
    let b = p.shortcuts.bindings();
    crate::shortcut::lemma_plain_key("Enter"@);
    crate::shortcut::lemma_plain_key("ArrowDown"@);
    crate::shortcut::lemma_plain_key("ArrowUp"@);
    crate::shortcut::lemma_plain_key("Escape"@);
    assert(b[0].key == "Enter"@ && b[1].key == "ArrowDown"@ && b[2].key == "ArrowUp"@ && b[3].key == "Escape"@);
    assert(crate::text::ascii_lowercase("Enter"@).len() == 5);
    assert(crate::text::ascii_lowercase("ArrowDown"@).len() == 9);
    assert(crate::text::ascii_lowercase("ArrowUp"@).len() == 7);
    assert(crate::text::ascii_lowercase("Escape"@).len() == 6);
}

} // verus!
