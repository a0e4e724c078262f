//! Which palette the launcher is drawn with: a built-in one, the system's
//! choice between them, or the custom colours when all three read as
//! colours. Colours are read from `#RRGGBB` or `#RRGGBBAA` text.
use vstd::prelude::*;
use crate::text::{chars_of, trim, trim_chars};
use crate::preferences::{ThemePreference, ThemeColors, strip_hashes, is_hex_digit, lemma_strip_hashes_skip};
use crate::shortcut::equal_chars;

verus! {

/// The number of bytes UTF-8 takes for a character.
pub open spec fn utf8_width(c: char) -> int {
    let u = c as int;
    if u < 0x80 {
        1
    } else if u < 0x800 {
        2
    } else if u < 0x10000 {
        3
    } else {
        4
    }
}

/// The number of bytes UTF-8 takes for a text.
pub open spec fn utf8_len(s: Seq<char>) -> int
    decreases s.len(),
{
    if s.len() == 0 {
        0
    } else {
        utf8_len(s.drop_last()) + utf8_width(s.last())
    }
}

/// The value of a hexadecimal digit.
pub open spec fn hex_value(c: char) -> int {
    if '0' <= c <= '9' {
        c as int - '0' as int
    } else if 'a' <= c <= 'f' {
        c as int - 'a' as int + 10
    } else {
        c as int - 'A' as int + 10
    }
}

/// What `u8::from_str_radix(_, 16)` gives for two one-byte characters: two
/// hexadecimal digits, or `+` and one digit; nothing for anything else.
pub open spec fn pair_value(c0: char, c1: char) -> Option<u8> {
    if is_hex_digit(c0) && is_hex_digit(c1) {
        Some((hex_value(c0) * 16 + hex_value(c1)) as u8)
    } else if c0 == '+' && is_hex_digit(c1) {
        Some(hex_value(c1) as u8)
    } else {
        None
    }
}

/// The byte values of the first `n` two-byte slices of `t`, read one after
/// another; nothing as soon as one is not a byte value.
pub open spec fn pair_values(t: Seq<char>, n: nat) -> Option<Seq<u8>>
    decreases n,
{
    if n == 0 {
        Some(Seq::empty())
    } else if t.len() >= 2 && utf8_width(t[0]) == 1 && utf8_width(t[1]) == 1 {
        match pair_value(t[0], t[1]) {
            Some(v) => match pair_values(t.skip(2), (n - 1) as nat) {
                Some(rest) => Some(seq![v] + rest),
                None => None,
            },
            None => None,
        }
    } else {
        None
    }
}

/// Whether reading those slices one after another stops before any slice
/// would end inside a character (which the byte slicing does not allow).
pub open spec fn pairs_cut_cleanly(t: Seq<char>, n: nat) -> bool
    decreases n,
{
    if n == 0 {
        true
    } else if t.len() >= 1 && utf8_width(t[0]) == 2 {
        true
    } else if t.len() >= 2 && utf8_width(t[0]) == 1 && utf8_width(t[1]) == 1 {
        match pair_value(t[0], t[1]) {
            Some(_) => pairs_cut_cleanly(t.skip(2), (n - 1) as nat),
            None => true,
        }
    } else {
        false
    }
}

/// The digits of a colour text: trimmed, without leading `#`.
pub open spec fn color_digits(value: Seq<char>) -> Seq<char> {
    strip_hashes(trim(value))
}

/// A colour as red, green, blue and alpha bytes.
#[derive(Debug, Clone, Copy, PartialEq, Eq, Structural)]
pub struct Rgba8 {
    pub r: u8,
    pub g: u8,
    pub b: u8,
    pub a: u8,
}

/// The colour a text names: six bytes of digits are
/// red, green and blue, opaque; eight add alpha; anything else names none.
pub open spec fn hex_rgba(value: Seq<char>) -> Option<Rgba8> {
    let t = color_digits(value);
    if utf8_len(t) == 6 {
        match pair_values(t, 3) {
            Some(v) => Some(Rgba8 { r: v[0], g: v[1], b: v[2], a: 255 }),
            None => None,
        }
    } else if utf8_len(t) == 8 {
        match pair_values(t, 4) {
            Some(v) => Some(Rgba8 { r: v[0], g: v[1], b: v[2], a: v[3] }),
            None => None,
        }
    } else {
        None
    }
}

/// Whether reading a colour text runs to its end without slicing inside a
/// character.
pub open spec fn hex_read_completes(value: Seq<char>) -> bool {
    let t = color_digits(value);
    &&& utf8_len(t) == 6 ==> pairs_cut_cleanly(t, 3)
    &&& utf8_len(t) == 8 ==> pairs_cut_cleanly(t, 4)
}

proof fn lemma_utf8_len_prefix(s: Seq<char>, i: int)
    requires
        0 <= i < s.len(),
    ensures
        utf8_len(s.take(i + 1)) == utf8_len(s.take(i)) + utf8_width(s[i]),
        utf8_len(s.take(i)) <= utf8_len(s),
    decreases s.len() - i,
{
    assert(s.take(i + 1).drop_last() =~= s.take(i));
    if i + 1 < s.len() {
        lemma_utf8_len_prefix(s, i + 1);
    } else {
        assert(s.take(i + 1) =~= s);
    }
}

fn width_of(c: char) -> (w: usize)
    ensures
        w == utf8_width(c),
{
    if (c as u32) < 0x80 {
        1
    } else if (c as u32) < 0x800 {
        2
    } else if (c as u32) < 0x10000 {
        3
    } else {
        4
    }
}

/// The UTF-8 length of `t` when it is at most 8, or 9 when it is more.
fn short_utf8_len(t: &[char]) -> (n: usize)
    ensures
        n <= 9,
        n <= 8 ==> n == utf8_len(t@),
        n == 9 ==> utf8_len(t@) > 8,
{
    let mut total: usize = 0;
    let mut i: usize = 0;
    assert(t@.take(0) =~= Seq::<char>::empty());
    while i < t.len() && total <= 8
        invariant
            i <= t.len(),
            total == utf8_len(t@.take(i as int)),
        decreases t.len() - i,
    {
        proof {
            lemma_utf8_len_prefix(t@, i as int);
        }
        total = total + width_of(t[i]);
        i = i + 1;
    }
    if total > 8 {
        proof {
            if i < t.len() {
                lemma_utf8_len_prefix(t@, i as int);
            } else {
                assert(t@.take(i as int) =~= t@);
            }
        }
        9
    } else {
        assert(t@.take(i as int) =~= t@);
        total
    }
}

fn digit_value(c: char) -> (v: u8)
    requires
        is_hex_digit(c),
    ensures
        v == hex_value(c),
{
    if '0' <= c && c <= '9' {
        (c as u32 - '0' as u32) as u8
    } else if 'a' <= c && c <= 'f' {
        (c as u32 - 'a' as u32 + 10) as u8
    } else {
        (c as u32 - 'A' as u32 + 10) as u8
    }
}

fn is_hex(c: char) -> (r: bool)
    ensures
        r == is_hex_digit(c),
{
    ('0' <= c && c <= '9') || ('a' <= c && c <= 'f') || ('A' <= c && c <= 'F')
}

fn read_pair(c0: char, c1: char) -> (r: Option<u8>)
    ensures
        r == pair_value(c0, c1),
{
    if is_hex(c0) && is_hex(c1) {
        let hi = digit_value(c0);
        let lo = digit_value(c1);
        Some(hi * 16 + lo)
    } else if c0 == '+' && is_hex(c1) {
        Some(digit_value(c1))
    } else {
        None
    }
}

fn read_pairs(t: &[char], n: usize) -> (r: Option<Vec<u8>>)
    ensures
        match pair_values(t@, n as nat) {
            Some(v) => r matches Some(out) && out@ == v,
            None => r is None,
        },
        r matches Some(out) ==> out@.len() == n,
{
    let mut out: Vec<u8> = Vec::new();
    let mut k: usize = 0;
    let mut p: usize = 0;
    assert(t@.skip(0) =~= t@);
    while k < n
        invariant
            k <= n,
            p == 2 * k,
            out@.len() == k,
            p <= t.len(),
            pair_values(t@, n as nat) == match pair_values(t@.skip(p as int), (n - k) as nat) {
                Some(rest) => Some(out@ + rest),
                None => None::<Seq<u8>>,
            },
        decreases n - k,
    {
        if t.len() - p < 2 {
            return None;
        }
        let c0 = t[p];
        let c1 = t[p + 1];
        if width_of(c0) != 1 || width_of(c1) != 1 {
            return None;
        }
        let v = match read_pair(c0, c1) {
            Some(v) => v,
            None => return None,
        };
        assert(t@.skip(p as int).skip(2) =~= t@.skip(p + 2));
        assert(out@ + (seq![v] + Seq::<u8>::empty()) =~= out@.push(v));
        proof {
            let tail = t@.skip(p + 2);
            match pair_values(tail, (n - k - 1) as nat) {
                Some(rest) => {
                    assert(out@ + (seq![v] + rest) =~= out@.push(v) + rest);
                },
                None => {},
            }
        }
        out.push(v);
        k = k + 1;
        p = p + 2;
    }
    assert(out@ + Seq::<u8>::empty() =~= out@);
    Some(out)
}

fn cuts_cleanly(t: &[char], n: usize) -> (r: bool)
    ensures
        r == pairs_cut_cleanly(t@, n as nat),
{
    let mut k: usize = 0;
    let mut p: usize = 0;
    assert(t@.skip(0) =~= t@);
    while k < n
        invariant
            k <= n,
            p == 2 * k,
            p <= t.len(),
            pairs_cut_cleanly(t@, n as nat) == pairs_cut_cleanly(t@.skip(p as int), (n - k) as nat),
        decreases n - k,
    {
        if p < t.len() && width_of(t[p]) == 2 {
            return true;
        }
        if t.len() - p < 2 {
            return false;
        }
        if width_of(t[p]) != 1 || width_of(t[p + 1]) != 1 {
            return false;
        }
        if read_pair(t[p], t[p + 1]).is_none() {
            return true;
        }
        assert(t@.skip(p as int).skip(2) =~= t@.skip(p + 2));
        k = k + 1;
        p = p + 2;
    }
    true
}

fn digits_of_color(value: &str) -> (t: Vec<char>)
    ensures
        t@ == color_digits(value@),
{
    let chars = chars_of(value);
    let trimmed = trim_chars(chars.as_slice());
    let mut i: usize = 0;
    while i < trimmed.len() && trimmed[i] == '#'
        invariant
            i <= trimmed.len(),
            forall|k: int| 0 <= k < i ==> #[trigger] trimmed@[k] == '#',
        decreases trimmed.len() - i,
    {
        i = i + 1;
    }
    proof {
        lemma_strip_hashes_skip(trimmed@, i as int);
    }
    let ghost rest = trimmed@.subrange(i as int, trimmed.len() as int);
    assert(strip_hashes(rest) == rest);
    let mut t: Vec<char> = Vec::new();
    let mut k: usize = i;
    while k < trimmed.len()
        invariant
            i <= k <= trimmed.len(),
            t@ == trimmed@.subrange(i as int, k as int),
        decreases trimmed.len() - k,
    {
        t.push(trimmed[k]);
        k = k + 1;
        assert(t@ =~= trimmed@.subrange(i as int, k as int));
    }
    t
}

/// Whether reading `value` as a colour runs to its end; see
/// `hex_read_completes`.
pub fn hex_read_is_complete(value: &str) -> (r: bool)
    ensures
        r == hex_read_completes(value@),
{
    let t = digits_of_color(value);
    let len = short_utf8_len(t.as_slice());
    if len == 6 {
        cuts_cleanly(t.as_slice(), 3)
    } else if len == 8 {
        cuts_cleanly(t.as_slice(), 4)
    } else {
        true
    }
}

/// The colour `value` names; see `hex_rgba`.
pub fn parse_hex_color(value: &str) -> (r: Option<Rgba8>)
    requires
        hex_read_completes(value@),
    ensures
        r == hex_rgba(value@),
{
    let t = digits_of_color(value);
    let len = short_utf8_len(t.as_slice());
    if len == 6 {
        match read_pairs(t.as_slice(), 3) {
            Some(v) => Some(Rgba8 { r: v[0], g: v[1], b: v[2], a: 255 }),
            None => None,
        }
    } else if len == 8 {
        match read_pairs(t.as_slice(), 4) {
            Some(v) => Some(Rgba8 { r: v[0], g: v[1], b: v[2], a: v[3] }),
            None => None,
        }
    } else {
        None
    }
}

/// The desktop's light or dark preference, as far as it is known.
#[derive(Debug, Clone, Copy, PartialEq, Eq, Structural)]
pub enum SystemTheme {
    Dark,
    Light,
    Unspecified,
}

/// The three colours a custom theme is drawn from.
#[derive(Debug, Clone, Copy, PartialEq, Eq, Structural)]
pub struct CustomPalette {
    pub background: Rgba8,
    pub text: Rgba8,
    pub primary: Rgba8,
}

/// The palette the launcher is drawn with.
#[derive(Debug, Clone, Copy, PartialEq, Eq, Structural)]
pub enum ThemeChoice {
    Dark,
    Light,
    Custom(CustomPalette),
}

/// The custom colours as a palette, when all three name colours.
pub open spec fn custom_palette(colors: &ThemeColors) -> Option<CustomPalette> {
    match (hex_rgba(colors.background@), hex_rgba(colors.text@), hex_rgba(colors.accent@)) {
        (Some(b), Some(t), Some(a)) => Some(CustomPalette { background: b, text: t, primary: a }),
        _ => None,
    }
}

/// Whether reading the custom colours, in the order background, text,
/// accent and stopping at the first that names no colour, runs to its end.
pub open spec fn custom_read_completes(colors: &ThemeColors) -> bool {
    &&& hex_read_completes(colors.background@)
    &&& hex_rgba(colors.background@) is Some ==> hex_read_completes(colors.text@)
    &&& (hex_rgba(colors.background@) is Some && hex_rgba(colors.text@) is Some)
        ==> hex_read_completes(colors.accent@)
}

/// The palette for a theme preference: the built-in dark or light one; for
/// the system's choice, light only when the desktop asks for light; for the
/// custom theme, its colours, or the dark palette when they do not read.
pub open spec fn theme_choice(preference: ThemePreference, system: SystemTheme, colors: &ThemeColors) -> ThemeChoice {
    match preference {
        ThemePreference::Dark => ThemeChoice::Dark,
        ThemePreference::Light => ThemeChoice::Light,
        ThemePreference::System => if system == SystemTheme::Light {
            ThemeChoice::Light
        } else {
            ThemeChoice::Dark
        },
        ThemePreference::Custom => match custom_palette(colors) {
            Some(p) => ThemeChoice::Custom(p),
            None => ThemeChoice::Dark,
        },
    }
}

/// Whether resolving the theme preference runs to its end: only the custom
/// theme reads colours.
pub open spec fn theme_read_completes(preference: ThemePreference, colors: &ThemeColors) -> bool {
    preference == ThemePreference::Custom ==> custom_read_completes(colors)
}

/// Whether `theme_read_completes` holds for these preferences.
pub fn theme_read_is_complete(preference: ThemePreference, colors: &ThemeColors) -> (r: bool)
    ensures
        r == theme_read_completes(preference, colors),
{
    if preference != ThemePreference::Custom {
        return true;
    }
    if !hex_read_is_complete(colors.background.as_str()) {
        return false;
    }
    if parse_hex_color(colors.background.as_str()).is_none() {
        return true;
    }
    if !hex_read_is_complete(colors.text.as_str()) {
        return false;
    }
    if parse_hex_color(colors.text.as_str()).is_none() {
        return true;
    }
    hex_read_is_complete(colors.accent.as_str())
}

/// The custom colours as a palette; see
/// `custom_palette`.
pub fn parse_custom_palette(colors: &ThemeColors) -> (r: Option<CustomPalette>)
    requires
        custom_read_completes(colors),
    ensures
        r == custom_palette(colors),
{
    let background = match parse_hex_color(colors.background.as_str()) {
        Some(c) => c,
        None => return None,
    };
    let text = match parse_hex_color(colors.text.as_str()) {
        Some(c) => c,
        None => return None,
    };
    let primary = match parse_hex_color(colors.accent.as_str()) {
        Some(c) => c,
        None => return None,
    };
    Some(CustomPalette { background, text, primary })
}

/// The palette for a theme preference; see
/// `theme_choice`. `system` is only consulted for the system's choice.
pub fn resolve_theme_choice(preference: ThemePreference, system: SystemTheme, colors: &ThemeColors) -> (r: ThemeChoice)
    requires
        theme_read_completes(preference, colors),
    ensures
        r == theme_choice(preference, system, colors),
{
    match preference {
        ThemePreference::Dark => ThemeChoice::Dark,
        ThemePreference::Light => ThemeChoice::Light,
        ThemePreference::System => match system {
            SystemTheme::Light => ThemeChoice::Light,
            _ => ThemeChoice::Dark,
        },
        ThemePreference::Custom => match parse_custom_palette(colors) {
            Some(p) => ThemeChoice::Custom(p),
            None => ThemeChoice::Dark,
        },
    }
}

/// The name a theme preference is shown under in the preferences window:
/// the custom theme is shown as the system's.
pub open spec fn theme_label_spec(theme: ThemePreference) -> Seq<char> {
    match theme {
        ThemePreference::Light => "Light"@,
        ThemePreference::Dark => "Dark"@,
        _ => "System"@,
    }
}

/// The theme preference a selected name stands for: `Light`, `Dark`, and
/// anything else the system's.
pub open spec fn parse_theme_spec(value: Seq<char>) -> ThemePreference {
    if value == "Light"@ {
        ThemePreference::Light
    } else if value == "Dark"@ {
        ThemePreference::Dark
    } else {
        ThemePreference::System
    }
}

/// The name a theme preference is shown under.
pub fn theme_label(theme: ThemePreference) -> (r: &'static str)
    ensures
        r@ == theme_label_spec(theme),
{
    match theme {
        ThemePreference::Light => "Light",
        ThemePreference::Dark => "Dark",
        _ => "System",
    }
}

/// The theme preference a selected name stands for.
pub fn parse_theme(value: &str) -> (r: ThemePreference)
    ensures
        r == parse_theme_spec(value@),
{
    let v = chars_of(value);
    let light = chars_of("Light");
    let dark = chars_of("Dark");
    if equal_chars(v.as_slice(), light.as_slice()) {
        ThemePreference::Light
    } else if equal_chars(v.as_slice(), dark.as_slice()) {
        ThemePreference::Dark
    } else {
        ThemePreference::System
    }
}

/// Reading back the name a theme is shown under gives the theme, except
/// the custom theme, which reads back as the system's.
pub proof fn lemma_theme_label_reads_back(theme: ThemePreference)
    ensures
        parse_theme_spec(theme_label_spec(theme)) == (if theme == ThemePreference::Custom {
            ThemePreference::System
        } else {
            theme
        }),
{
    reveal_strlit("Light");
    reveal_strlit("Dark");
    reveal_strlit("System");
    assert("Light"@.len() == 5 && "Dark"@.len() == 4 && "System"@.len() == 6);
    assert("Light"@ != "Dark"@ && "System"@ != "Light"@ && "System"@ != "Dark"@);
}

} // verus!
