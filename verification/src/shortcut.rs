//! Keyboard shortcut bindings: their text form `Ctrl+Alt+Shift+Super+Key`,
//! parsing that text back, and the normalised key that two bindings are
//! compared by.
use vstd::prelude::*;
use crate::text::{
    chars_of, string_from, trim, trim_chars, ascii_lowercase, ascii_lowercase_chars,
};

verus! {

/// `normalize_binding_key`: trims, lower-cases ASCII letters and removes
/// spaces, underscores and hyphens, so `" Arrow-Down "` becomes `"arrowdown"`.
pub open spec fn normalize_key(s: Seq<char>) -> Seq<char> {
    without_separators(ascii_lowercase(trim(s)))
}

/// `s` without spaces, underscores and hyphens.
pub open spec fn without_separators(s: Seq<char>) -> Seq<char> {
    s.filter(|c: char| c != ' ' && c != '_' && c != '-')
}

/// `s` cut at every `sep`; an input without `sep` is a single piece.
pub open spec fn split_on(s: Seq<char>, sep: char) -> Seq<Seq<char>>
    decreases s.len(),
{
    if s.len() == 0 {
        seq![Seq::<char>::empty()]
    } else {
        let rest = split_on(s.drop_last(), sep);
        if s.last() == sep {
            rest.push(Seq::<char>::empty())
        } else {
            rest.update(rest.len() - 1, rest.last().push(s.last()))
        }
    }
}

proof fn lemma_without_separators_keeps(s: Seq<char>)
    requires
        forall|i: int| 0 <= i < s.len() ==> s[i] != ' ' && s[i] != '_' && s[i] != '-',
    ensures
        without_separators(s) == s,
    decreases s.len(),
{
    reveal_with_fuel(Seq::filter, 1);
    if s.len() > 0 {
        lemma_without_separators_keeps(s.drop_last());
        assert(s.drop_last().push(s.last()) =~= s);
    } else {
        assert(s.filter(|c: char| c != ' ' && c != '_' && c != '-') =~= s);
    }
}

/// The only white space in `s`, if any, is the plain space.
pub open spec fn spaces_only(s: Seq<char>) -> bool {
    forall|i: int| 0 <= i < s.len() && crate::text::is_white_space(#[trigger] s[i]) ==> s[i] == ' '
}

proof fn lemma_drop_leading_space(s: Seq<char>)
    requires
        s.len() > 0,
        s[0] == ' ',
    ensures
        without_separators(ascii_lowercase(s)) == without_separators(ascii_lowercase(s.drop_first())),
{
    let pred = |c: char| c != ' ' && c != '_' && c != '-';
    assert(ascii_lowercase(s) =~= seq![' '] + ascii_lowercase(s.drop_first()));
    Seq::filter_distributes_over_add(seq![' '], ascii_lowercase(s.drop_first()), pred);
    reveal_with_fuel(Seq::filter, 2);
    assert(seq![' '].filter(pred) =~= Seq::<char>::empty());
    assert(Seq::<char>::empty() + ascii_lowercase(s.drop_first()).filter(pred) =~= ascii_lowercase(
        s.drop_first(),
    ).filter(pred));
}

proof fn lemma_drop_trailing_space(s: Seq<char>)
    requires
        s.len() > 0,
        s.last() == ' ',
    ensures
        without_separators(ascii_lowercase(s)) == without_separators(ascii_lowercase(s.drop_last())),
{
    assert(ascii_lowercase(s) =~= ascii_lowercase(s.drop_last()).push(' '));
    reveal_with_fuel(Seq::filter, 1);
    assert(ascii_lowercase(s).drop_last() =~= ascii_lowercase(s.drop_last()));
}

proof fn lemma_trim_start_spaces(s: Seq<char>)
    requires
        spaces_only(s),
    ensures
        without_separators(ascii_lowercase(crate::text::trim_start(s))) == without_separators(
            ascii_lowercase(s),
        ),
        spaces_only(crate::text::trim_start(s)),
    decreases s.len(),
{
    if s.len() > 0 && crate::text::is_white_space(s[0]) {
        assert(s[0] == ' ');
        assert forall|i: int| 0 <= i < s.drop_first().len() && crate::text::is_white_space(
            #[trigger] s.drop_first()[i],
        ) implies s.drop_first()[i] == ' ' by {
            assert(s.drop_first()[i] == s[i + 1]);
        }
        lemma_trim_start_spaces(s.drop_first());
        lemma_drop_leading_space(s);
    }
}

proof fn lemma_trim_end_spaces(s: Seq<char>)
    requires
        spaces_only(s),
    ensures
        without_separators(ascii_lowercase(crate::text::trim_end(s))) == without_separators(
            ascii_lowercase(s),
        ),
    decreases s.len(),
{
    if s.len() > 0 && crate::text::is_white_space(s.last()) {
        assert(s[s.len() - 1] == ' ');
        assert forall|i: int| 0 <= i < s.drop_last().len() && crate::text::is_white_space(
            #[trigger] s.drop_last()[i],
        ) implies s.drop_last()[i] == ' ' by {
            assert(s.drop_last()[i] == s[i]);
        }
        lemma_trim_end_spaces(s.drop_last());
        lemma_drop_trailing_space(s);
    }
}

/// A key whose only white space is plain spaces normalises as if it were
/// not trimmed first: lower-cased, without spaces, underscores and hyphens.
pub proof fn lemma_normalize_key_untrimmed(s: Seq<char>)
    requires
        spaces_only(s),
    ensures
        normalize_key(s) == without_separators(ascii_lowercase(s)),
{
    lemma_trim_start_spaces(s);
    lemma_trim_end_spaces(crate::text::trim_start(s));
}

/// Normalising a key whose only white space is plain spaces a second time
/// changes nothing.
pub proof fn lemma_normalize_key_idempotent(s: Seq<char>)
    requires
        spaces_only(s),
    ensures
        normalize_key(normalize_key(s)) == normalize_key(s),
{
    lemma_normalize_key_untrimmed(s);
    let lower = ascii_lowercase(s);
    let r = without_separators(lower);
    let pred = |c: char| c != ' ' && c != '_' && c != '-';
    assert(r == lower.filter(pred));
    assert forall|i: int| 0 <= i < r.len() implies {
        &&& #[trigger] r[i] != ' ' && r[i] != '_' && r[i] != '-'
        &&& crate::text::ascii_lower(r[i]) == r[i]
        &&& !crate::text::is_white_space(r[i])
    } by {
        lower.lemma_filter_pred(pred, i);
        assert(r.contains(r[i]));
        lower.lemma_filter_contains_rev(pred, r[i]);
        let j = choose|j: int| 0 <= j < lower.len() && lower[j] == r[i];
        assert(lower[j] == crate::text::ascii_lower(s[j]));
    }
    assert(spaces_only(r));
    lemma_normalize_key_untrimmed(r);
    assert(ascii_lowercase(r) =~= r);
    lemma_without_separators_keeps(r);
}

/// A key of letters and no separators: it reads back from a binding's text
/// and normalises to its ASCII lower case.
pub(crate) proof fn lemma_plain_key(key: Seq<char>)
    requires
        key.len() > 0,
        forall|i: int| 0 <= i < key.len() ==> ('a' <= #[trigger] key[i] <= 'z') || ('A' <= key[i] <= 'Z'),
    ensures
        key_well_formed(key),
        normalize_key(key) == ascii_lowercase(key),
{
    assert(!crate::text::is_white_space(key[0]));
    assert(!crate::text::is_white_space(key.last()));
    assert(crate::text::trim_start(key) == key);
    assert(crate::text::trim_end(key) == key);
    let lower = ascii_lowercase(key);
    assert forall|i: int| 0 <= i < lower.len() implies lower[i] != ' ' && lower[i] != '_' && lower[i]
        != '-' by {
        assert(lower[i] == crate::text::ascii_lower(key[i]));
    }
    lemma_without_separators_keeps(lower);
}

/// The modifier keys a binding can require.
#[derive(Debug, Clone, Copy, PartialEq, Eq, Structural)]
pub enum Modifier {
    Ctrl,
    Alt,
    Shift,
    Super,
}

/// The modifier a (normalised) token names, if any.
pub open spec fn modifier_named(n: Seq<char>) -> Option<Modifier> {
    if n == seq!['c', 't', 'r', 'l'] || n == seq!['c', 'o', 'n', 't', 'r', 'o', 'l'] {
        Some(Modifier::Ctrl)
    } else if n == seq!['a', 'l', 't'] {
        Some(Modifier::Alt)
    } else if n == seq!['s', 'h', 'i', 'f', 't'] {
        Some(Modifier::Shift)
    } else if n == seq!['s', 'u', 'p', 'e', 'r'] || n == seq!['m', 'e', 't', 'a'] || n == seq![
        'l',
        'o',
        'g',
        'o',
    ] {
        Some(Modifier::Super)
    } else {
        None
    }
}

/// A parsed binding, as plain values: the four modifier flags and the key.
pub struct BindingParts {
    pub ctrl: bool,
    pub alt: bool,
    pub shift: bool,
    pub super_key: bool,
    pub key: Seq<char>,
}

/// Why a shortcut text was refused.
pub enum BindingErrorKind {
    Empty,
    UnknownModifier(Seq<char>),
    MissingKey,
}

/// Some token before position `n` names `m`.
pub open spec fn names_modifier(toks: Seq<Seq<char>>, n: int, m: Modifier) -> bool {
    exists|i: int| 0 <= i < n && modifier_named(normalize_key(#[trigger] toks[i])) == Some(m)
}

/// The first token before position `n` that names no modifier.
pub open spec fn first_unknown(toks: Seq<Seq<char>>, n: int) -> Option<int>
    decreases n,
{
    if n <= 0 {
        None
    } else {
        match first_unknown(toks, n - 1) {
            Some(i) => Some(i),
            None => if modifier_named(normalize_key(toks[n - 1])) is None {
                Some(n - 1)
            } else {
                None
            },
        }
    }
}

/// How a shortcut text is read: pieces separated by `+`; every piece but the
/// last must name a modifier (checked left to right), and the last, trimmed,
/// is the key and must not be empty. Blank text is refused first.
#[verifier::opaque]
pub open spec fn parse_binding_text(s: Seq<char>) -> Result<BindingParts, BindingErrorKind> {
    if trim(s).len() == 0 {
        Err(BindingErrorKind::Empty)
    } else {
        let toks = split_on(s, '+');
        let n = toks.len() - 1;
        match first_unknown(toks, n) {
            Some(i) => Err(BindingErrorKind::UnknownModifier(trim(toks[i]))),
            None => if trim(toks[n]).len() == 0 {
                Err(BindingErrorKind::MissingKey)
            } else {
                Ok(
                    BindingParts {
                        ctrl: names_modifier(toks, n, Modifier::Ctrl),
                        alt: names_modifier(toks, n, Modifier::Alt),
                        shift: names_modifier(toks, n, Modifier::Shift),
                        super_key: names_modifier(toks, n, Modifier::Super),
                        key: trim(toks[n]),
                    },
                )
            },
        }
    }
}

proof fn lemma_first_unknown_stable(toks: Seq<Seq<char>>, k: int, m: int)
    requires
        k <= m,
        first_unknown(toks, k) is Some,
    ensures
        first_unknown(toks, m) == first_unknown(toks, k),
    decreases m - k,
{
    if k < m {
        lemma_first_unknown_stable(toks, k, m - 1);
    }
}

/// A keyboard shortcut: modifier flags and a key name.
#[derive(Debug)]
pub struct ShortcutBinding {
    pub ctrl: bool,
    pub alt: bool,
    pub shift: bool,
    pub super_key: bool,
    pub key: String,
}

/// The sentence that explains why a shortcut text was refused.
pub open spec fn refusal_message(k: BindingErrorKind) -> Seq<char> {
    match k {
        BindingErrorKind::Empty => "shortcut is empty"@,
        BindingErrorKind::UnknownModifier(t) => "unknown modifier `"@ + t + "`"@,
        BindingErrorKind::MissingKey => "shortcut has no key"@,
    }
}

/// Why a shortcut text was refused, with the offending modifier text.
#[derive(Debug)]
pub enum ShortcutParseError {
    Empty,
    UnknownModifier(String),
    MissingKey,
}

impl ShortcutParseError {
    pub open spec fn kind(&self) -> BindingErrorKind {
        match self {
            ShortcutParseError::Empty => BindingErrorKind::Empty,
            ShortcutParseError::UnknownModifier(t) => BindingErrorKind::UnknownModifier(t@),
            ShortcutParseError::MissingKey => BindingErrorKind::MissingKey,
        }
    }

    /// The sentence that explains the refusal.
    pub open spec fn message_spec(&self) -> Seq<char> {
        refusal_message(self.kind())
    }

    /// The sentence that explains the refusal.
    pub fn message(&self) -> (r: String)
        ensures
            r@ == self.message_spec(),
    {
        match self {
            ShortcutParseError::Empty => crate::text::owned("shortcut is empty"),
            ShortcutParseError::UnknownModifier(t) => {
                let mut s = crate::text::owned("unknown modifier `");
                s.push_str(t.as_str());
                s.push_str("`");
                s
            },
            ShortcutParseError::MissingKey => crate::text::owned("shortcut has no key"),
        }
    }
}

/// The text form of a binding: the modifiers that are set, in the order
/// Ctrl, Alt, Shift, Super, each followed by `+`, then the key.
pub open spec fn binding_text(ctrl: bool, alt: bool, shift: bool, super_key: bool, key: Seq<char>) -> Seq<
    char,
> {
    (if ctrl {
        seq!['C', 't', 'r', 'l', '+']
    } else {
        Seq::empty()
    }) + (if alt {
        seq!['A', 'l', 't', '+']
    } else {
        Seq::empty()
    }) + (if shift {
        seq!['S', 'h', 'i', 'f', 't', '+']
    } else {
        Seq::empty()
    }) + (if super_key {
        seq!['S', 'u', 'p', 'e', 'r', '+']
    } else {
        Seq::empty()
    }) + key
}

impl ShortcutBinding {
    /// The binding as plain values.
    pub open spec fn parts(&self) -> BindingParts {
        BindingParts {
            ctrl: self.ctrl,
            alt: self.alt,
            shift: self.shift,
            super_key: self.super_key,
            key: self.key@,
        }
    }

    /// The text form of the binding.
    pub open spec fn text_spec(&self) -> Seq<char> {
        binding_text(self.ctrl, self.alt, self.shift, self.super_key, self.key@)
    }

    /// A binding of a key with no modifiers.
    pub fn plain(key: &str) -> (b: Self)
        ensures
            b.parts() == (BindingParts {
                ctrl: false,
                alt: false,
                shift: false,
                super_key: false,
                key: key@,
            }),
    {
        ShortcutBinding {
            ctrl: false,
            alt: false,
            shift: false,
            super_key: false,
            key: crate::text::owned(key),
        }
    }

    /// A copy of this binding.
    pub fn copied(&self) -> (b: Self)
        ensures
            b.parts() == self.parts(),
    {
        ShortcutBinding {
            ctrl: self.ctrl,
            alt: self.alt,
            shift: self.shift,
            super_key: self.super_key,
            key: self.key.clone(),
        }
    }

    /// The key as bindings are compared: see `normalize_key`.
    pub fn normalized_key(&self) -> (r: String)
        ensures
            r@ == normalize_key(self.key@),
    {
        normalize_binding_key(self.key.as_str())
    }

    /// The text form of the binding (what `Display` shows).
    pub fn text(&self) -> (r: String)
        ensures
            r@ == binding_text(self.ctrl, self.alt, self.shift, self.super_key, self.key@),
    {
        let mut out: Vec<char> = Vec::new();
        if self.ctrl {
            out.push('C');
            out.push('t');
            out.push('r');
            out.push('l');
            out.push('+');
        }
        let ghost a = out@;
        if self.alt {
            out.push('A');
            out.push('l');
            out.push('t');
            out.push('+');
        }
        let ghost b = out@;
        if self.shift {
            out.push('S');
            out.push('h');
            out.push('i');
            out.push('f');
            out.push('t');
            out.push('+');
        }
        let ghost c = out@;
        if self.super_key {
            out.push('S');
            out.push('u');
            out.push('p');
            out.push('e');
            out.push('r');
            out.push('+');
        }
        let mut s = string_from(out.as_slice());
        s.push_str(self.key.as_str());
        assert(s@ =~= binding_text(self.ctrl, self.alt, self.shift, self.super_key, self.key@));
        s
    }

    /// Reads a shortcut text; see `parse_binding_text`.
    pub fn parse(value: &str) -> (r: Result<Self, ShortcutParseError>)
        ensures
            match parse_binding_text(value@) {
                Ok(p) => r matches Ok(b) && b.parts() == p,
                Err(k) => r matches Err(e) && e.kind() == k,
            },
    {
        reveal(parse_binding_text);
        let chars = chars_of(value);
        let t = trim_chars(chars.as_slice());
        if t.len() == 0 {
            return Err(ShortcutParseError::Empty);
        }
        let toks = split_plus(chars.as_slice());
        let ghost tv = toks@.map_values(|v: Vec<char>| v@);
        let n = toks.len() - 1;
        let mut ctrl = false;
        let mut alt = false;
        let mut shift = false;
        let mut super_key = false;
        let mut i: usize = 0;
        while i < n
            invariant
                n + 1 == toks.len(),
                tv == toks@.map_values(|v: Vec<char>| v@),
                tv == split_on(value@, '+'),
                trim(value@).len() > 0,
                i <= n,
                first_unknown(tv, i as int) is None,
                ctrl == names_modifier(tv, i as int, Modifier::Ctrl),
                alt == names_modifier(tv, i as int, Modifier::Alt),
                shift == names_modifier(tv, i as int, Modifier::Shift),
                super_key == names_modifier(tv, i as int, Modifier::Super),
            decreases n - i,
        {
            proof {
                reveal(parse_binding_text);
            }
            let tok = &toks[i];
            let normalized = normalize_chars(tok.as_slice());
            let kind = modifier_of(normalized.as_slice());
            assert(tv[i as int] == toks@[i as int]@);
            match kind {
                None => {
                    let name = string_from(trim_chars(tok.as_slice()).as_slice());
                    assert(first_unknown(tv, i + 1) == Some(i as int));
                    proof {
                        lemma_first_unknown_stable(tv, i + 1, n as int);
                    }
                    return Err(ShortcutParseError::UnknownModifier(name));
                },
                Some(m) => {
                    match m {
                        Modifier::Ctrl => {
                            ctrl = true;
                        },
                        Modifier::Alt => {
                            alt = true;
                        },
                        Modifier::Shift => {
                            shift = true;
                        },
                        Modifier::Super => {
                            super_key = true;
                        },
                    }
                },
            }
            proof {
                assert(first_unknown(tv, i + 1) is None);
                assert forall|mm: Modifier|
                    names_modifier(tv, i + 1, mm) == (names_modifier(tv, i as int, mm)
                        || modifier_named(normalize_key(tv[i as int])) == Some(mm)) by {
                    if names_modifier(tv, i + 1, mm) {
                        let w = choose|w: int|
                            0 <= w < i + 1 && modifier_named(normalize_key(#[trigger] tv[w]))
                                == Some(mm);
                        if w < i {
                            assert(names_modifier(tv, i as int, mm));
                        }
                    }
                    if names_modifier(tv, i as int, mm) {
                        let w = choose|w: int|
                            0 <= w < i && modifier_named(normalize_key(#[trigger] tv[w])) == Some(
                                mm,
                            );
                        assert(0 <= w < i + 1);
                    }
                }
            }
            i = i + 1;
        }
        let key_chars = trim_chars(toks[n].as_slice());
        assert(tv[n as int] == toks@[n as int]@);
        if key_chars.len() == 0 {
            return Err(ShortcutParseError::MissingKey);
        }
        let key = string_from(key_chars.as_slice());
        Ok(ShortcutBinding { ctrl, alt, shift, super_key, key })
    }
}

/// Two bindings are the same shortcut: equal modifiers and equal normalised
/// keys.
pub open spec fn same_binding(a: BindingParts, b: BindingParts) -> bool {
    a.ctrl == b.ctrl && a.alt == b.alt && a.shift == b.shift && a.super_key == b.super_key
        && normalize_key(a.key) == normalize_key(b.key)
}

/// Whether two bindings are the same shortcut.
pub fn same_shortcut(left: &ShortcutBinding, right: &ShortcutBinding) -> (r: bool)
    ensures
        r == same_binding(left.parts(), right.parts()),
{
    if left.ctrl != right.ctrl || left.alt != right.alt || left.shift != right.shift
        || left.super_key != right.super_key {
        return false;
    }
    let a = left.normalized_key();
    let b = right.normalized_key();
    let av = chars_of(a.as_str());
    let bv = chars_of(b.as_str());
    equal_chars(av.as_slice(), bv.as_slice())
}

/// Whether two character slices hold the same characters.
pub fn equal_chars(a: &[char], b: &[char]) -> (r: bool)
    ensures
        r == (a@ == b@),
{
    if a.len() != b.len() {
        return false;
    }
    let mut i: usize = 0;
    while i < a.len()
        invariant
            a.len() == b.len(),
            i <= a.len(),
            forall|k: int| 0 <= k < i ==> a@[k] == b@[k],
        decreases a.len() - i,
    {
        if a[i] != b[i] {
            return false;
        }
        i = i + 1;
    }
    assert(a@ =~= b@);
    true
}

/// `normalize_binding_key` on a character slice.
pub fn normalize_chars(s: &[char]) -> (r: Vec<char>)
    ensures
        r@ == normalize_key(s@),
{
    let t = trim_chars(s);
    let lower = ascii_lowercase_chars(t.as_slice());
    let mut out: Vec<char> = Vec::new();
    let mut i: usize = 0;
    while i < lower.len()
        invariant
            i <= lower.len(),
            out@ == without_separators(lower@.subrange(0, i as int)),
        decreases lower.len() - i,
    {
        let c = lower[i];
        let ghost before = lower@.subrange(0, i as int);
        assert(lower@.subrange(0, i + 1) =~= before.push(c));
        reveal_with_fuel(Seq::filter, 1);
        assert(before.push(c).drop_last() =~= before);
        if c != ' ' && c != '_' && c != '-' {
            out.push(c);
            assert(out@ =~= without_separators(lower@.subrange(0, i + 1)));
        } else {
            assert(out@ =~= without_separators(lower@.subrange(0, i + 1)));
        }
        i = i + 1;
    }
    assert(lower@.subrange(0, lower.len() as int) =~= lower@);
    out
}

/// `normalize_binding_key`: the key text that bindings are compared by.
pub fn normalize_binding_key(value: &str) -> (r: String)
    ensures
        r@ == normalize_key(value@),
{
    let chars = chars_of(value);
    let n = normalize_chars(chars.as_slice());
    string_from(n.as_slice())
}

fn modifier_of(n: &[char]) -> (r: Option<Modifier>)
    ensures
        r == modifier_named(n@),
{
    let ctrl = vec!['c', 't', 'r', 'l'];
    let control = vec!['c', 'o', 'n', 't', 'r', 'o', 'l'];
    let alt = vec!['a', 'l', 't'];
    let shift = vec!['s', 'h', 'i', 'f', 't'];
    let sup = vec!['s', 'u', 'p', 'e', 'r'];
    let meta = vec!['m', 'e', 't', 'a'];
    let logo = vec!['l', 'o', 'g', 'o'];
    assert(ctrl@ =~= seq!['c', 't', 'r', 'l']);
    assert(control@ =~= seq!['c', 'o', 'n', 't', 'r', 'o', 'l']);
    assert(alt@ =~= seq!['a', 'l', 't']);
    assert(shift@ =~= seq!['s', 'h', 'i', 'f', 't']);
    assert(sup@ =~= seq!['s', 'u', 'p', 'e', 'r']);
    assert(meta@ =~= seq!['m', 'e', 't', 'a']);
    assert(logo@ =~= seq!['l', 'o', 'g', 'o']);
    if equal_chars(n, ctrl.as_slice()) || equal_chars(n, control.as_slice()) {
        Some(Modifier::Ctrl)
    } else if equal_chars(n, alt.as_slice()) {
        Some(Modifier::Alt)
    } else if equal_chars(n, shift.as_slice()) {
        Some(Modifier::Shift)
    } else if equal_chars(n, sup.as_slice()) || equal_chars(n, meta.as_slice()) || equal_chars(
        n,
        logo.as_slice(),
    ) {
        Some(Modifier::Super)
    } else {
        None
    }
}

/// Cuts `s` at every `+`.
fn split_plus(s: &[char]) -> (r: Vec<Vec<char>>)
    ensures
        r@.map_values(|v: Vec<char>| v@) == split_on(s@, '+'),
        r.len() >= 1,
{
    let mut done: Vec<Vec<char>> = Vec::new();
    let mut current: Vec<char> = Vec::new();
    let mut i: usize = 0;
    while i < s.len()
        invariant
            i <= s.len(),
            done@.map_values(|v: Vec<char>| v@).push(current@) == split_on(
                s@.subrange(0, i as int),
                '+',
            ),
        decreases s.len() - i,
    {
        let c = s[i];
        let ghost prefix = s@.subrange(0, i + 1);
        assert(prefix.drop_last() =~= s@.subrange(0, i as int));
        if c == '+' {
            let finished = current;
            done.push(finished);
            current = Vec::new();
            assert(done@.map_values(|v: Vec<char>| v@).push(current@) =~= split_on(prefix, '+'));
        } else {
            current.push(c);
            assert(done@.map_values(|v: Vec<char>| v@).push(current@) =~= split_on(prefix, '+'));
        }
        i = i + 1;
    }
    assert(s@.subrange(0, s.len() as int) =~= s@);
    done.push(current);
    assert(done@.map_values(|v: Vec<char>| v@) =~= split_on(s@, '+'));
    done
}

} // verus!

verus! {

/// A key that reads back from a binding's text: not empty, without
/// surrounding white space and without `+`.
pub open spec fn key_well_formed(key: Seq<char>) -> bool {
    key.len() > 0 && trim(key) == key && lacks(key, '+')
}

/// `c` does not occur in `s`.
pub open spec fn lacks(s: Seq<char>, c: char) -> bool {
    forall|i: int| 0 <= i < s.len() ==> s[i] != c
}

proof fn lemma_split_push(s: Seq<char>, c: char)
    ensures
        split_on(s.push(c), '+') == (if c == '+' {
            split_on(s, '+').push(Seq::<char>::empty())
        } else {
            split_on(s, '+').update(
                split_on(s, '+').len() - 1,
                split_on(s, '+').last().push(c),
            )
        }),
{
    assert(s.push(c).drop_last() =~= s);
}

proof fn lemma_split_len(s: Seq<char>)
    ensures
        split_on(s, '+').len() >= 1,
    decreases s.len(),
{
    if s.len() > 0 {
        lemma_split_len(s.drop_last());
    }
}

/// Appending text without `+` extends the last piece.
proof fn lemma_split_append_plain(x: Seq<char>, y: Seq<char>)
    requires
        lacks(y, '+'),
    ensures
        split_on(x + y, '+') == split_on(x, '+').update(
            split_on(x, '+').len() - 1,
            split_on(x, '+').last() + y,
        ),
    decreases y.len(),
{
    lemma_split_len(x);
    if y.len() == 0 {
        assert(x + y =~= x);
        assert(split_on(x, '+').last() + y =~= split_on(x, '+').last());
        assert(split_on(x, '+').update(split_on(x, '+').len() - 1, split_on(x, '+').last())
            =~= split_on(x, '+'));
    } else {
        let y0 = y.drop_last();
        let c = y.last();
        lemma_split_append_plain(x, y0);
        assert(x + y =~= (x + y0).push(c));
        lemma_split_push(x + y0, c);
        let before = split_on(x, '+');
        assert(before.last() + y =~= (before.last() + y0).push(c));
        assert(split_on(x + y, '+') =~= before.update(before.len() - 1, before.last() + y));
    }
}

/// Appending a word and a `+` closes the last piece with the word and opens
/// an empty one.
proof fn lemma_split_append_word(x: Seq<char>, w: Seq<char>)
    requires
        lacks(w, '+'),
    ensures
        split_on(x + w.push('+'), '+') == split_on(x, '+').update(
            split_on(x, '+').len() - 1,
            split_on(x, '+').last() + w,
        ).push(Seq::<char>::empty()),
{
    lemma_split_append_plain(x, w);
    assert(x + w.push('+') =~= (x + w).push('+'));
    lemma_split_push(x + w, '+');
}

proof fn lemma_normalize_word(w: Seq<char>, lower: Seq<char>)
    requires
        w.len() > 0,
        lower.len() == w.len(),
        forall|i: int| 0 <= i < w.len() ==> 'A' <= #[trigger] w[i] <= 'Z' || 'a' <= w[i] <= 'z',
        forall|i: int| 0 <= i < w.len() ==> lower[i] == crate::text::ascii_lower(#[trigger] w[i]),
        forall|i: int| 0 <= i < lower.len() ==> 'a' <= #[trigger] lower[i] <= 'z',
    ensures
        normalize_key(w) == lower,
{
    assert(trim(w) == w) by {
        assert(!crate::text::is_white_space(w[0]));
        assert(crate::text::trim_start(w) == w);
        assert(!crate::text::is_white_space(w.last()));
    }
    assert(ascii_lowercase(w) =~= lower);
    lemma_no_separators(lower);
}

proof fn lemma_no_separators(s: Seq<char>)
    requires
        forall|i: int| 0 <= i < s.len() ==> 'a' <= #[trigger] s[i] <= 'z',
    ensures
        without_separators(s) == s,
    decreases s.len(),
{
    reveal_with_fuel(Seq::filter, 1);
    if s.len() > 0 {
        lemma_no_separators(s.drop_last());
        assert(s.drop_last().push(s.last()) =~= s);
    } else {
        assert(s.filter(|c: char| c != ' ' && c != '_' && c != '-') =~= s);
    }
}

} // verus!

verus! {

pub open spec fn ctrl_word() -> Seq<char> {
    seq!['C', 't', 'r', 'l']
}

pub open spec fn alt_word() -> Seq<char> {
    seq!['A', 'l', 't']
}

pub open spec fn shift_word() -> Seq<char> {
    seq!['S', 'h', 'i', 'f', 't']
}

pub open spec fn super_word() -> Seq<char> {
    seq!['S', 'u', 'p', 'e', 'r']
}

/// The modifier words a binding's text starts with, in order.
pub open spec fn modifier_words(ctrl: bool, alt: bool, shift: bool, super_key: bool) -> Seq<
    Seq<char>,
> {
    (if ctrl {
        seq![ctrl_word()]
    } else {
        Seq::empty()
    }) + (if alt {
        seq![alt_word()]
    } else {
        Seq::empty()
    }) + (if shift {
        seq![shift_word()]
    } else {
        Seq::empty()
    }) + (if super_key {
        seq![super_word()]
    } else {
        Seq::empty()
    })
}

proof fn lemma_trim_start_len(s: Seq<char>)
    ensures
        crate::text::trim_start(s).len() <= s.len(),
        s.len() > 0 && !crate::text::is_white_space(s.last()) ==> crate::text::trim_start(s).len()
            > 0 && crate::text::trim_start(s).last() == s.last(),
    decreases s.len(),
{
    if s.len() > 0 && crate::text::is_white_space(s[0]) {
        lemma_trim_start_len(s.drop_first());
    }
}

proof fn lemma_trim_end_len(s: Seq<char>)
    ensures
        crate::text::trim_end(s).len() <= s.len(),
    decreases s.len(),
{
    if s.len() > 0 && crate::text::is_white_space(s.last()) {
        lemma_trim_end_len(s.drop_last());
    }
}

proof fn lemma_trimmed_ends(key: Seq<char>)
    requires
        key.len() > 0,
        trim(key) == key,
    ensures
        !crate::text::is_white_space(key[0]),
        !crate::text::is_white_space(key.last()),
{
    lemma_trim_start_len(key);
    lemma_trim_end_len(crate::text::trim_start(key));
    if crate::text::is_white_space(key[0]) {
        lemma_trim_start_len(key.drop_first());
    }
    if crate::text::is_white_space(key.last()) {
        let t = crate::text::trim_start(key);
        if t.len() > 0 && crate::text::is_white_space(t.last()) {
            lemma_trim_end_len(t.drop_last());
        } else {
            if t.len() > 0 {
                lemma_trim_start_len(key);
            }
        }
    }
}

proof fn lemma_first_unknown_none(toks: Seq<Seq<char>>, n: int)
    requires
        forall|i: int| 0 <= i < n ==> modifier_named(normalize_key(#[trigger] toks[i])) is Some,
    ensures
        first_unknown(toks, n) is None,
    decreases n,
{
    if n > 0 {
        lemma_first_unknown_none(toks, n - 1);
    }
}

proof fn lemma_modifier_words_named()
    ensures
        normalize_key(ctrl_word()) == seq!['c', 't', 'r', 'l'],
        normalize_key(alt_word()) == seq!['a', 'l', 't'],
        normalize_key(shift_word()) == seq!['s', 'h', 'i', 'f', 't'],
        normalize_key(super_word()) == seq!['s', 'u', 'p', 'e', 'r'],
{
    lemma_normalize_word(ctrl_word(), seq!['c', 't', 'r', 'l']);
    lemma_normalize_word(alt_word(), seq!['a', 'l', 't']);
    lemma_normalize_word(shift_word(), seq!['s', 'h', 'i', 'f', 't']);
    lemma_normalize_word(super_word(), seq!['s', 'u', 'p', 'e', 'r']);
}

proof fn lemma_split_step(x: Seq<char>, w: Seq<char>, ws: Seq<Seq<char>>, on: bool)
    requires
        split_on(x, '+') == ws.push(Seq::<char>::empty()),
        lacks(w, '+'),
    ensures
        split_on(x + (if on { w.push('+') } else { Seq::<char>::empty() }), '+') == (ws + (if on {
            seq![w]
        } else {
            Seq::<Seq<char>>::empty()
        })).push(Seq::<char>::empty()),
{
    let e = Seq::<char>::empty();
    if on {
        lemma_split_append_word(x, w);
        assert(e + w =~= w);
        assert(ws.push(e).update(ws.len() as int, w).push(e) =~= (ws + seq![w]).push(e));
    } else {
        assert(x + e =~= x);
        assert(ws + Seq::<Seq<char>>::empty() =~= ws);
    }
}

proof fn lemma_split_binding_text(
    ctrl: bool,
    alt: bool,
    shift: bool,
    super_key: bool,
    key: Seq<char>,
)
    requires
        lacks(key, '+'),
    ensures
        split_on(binding_text(ctrl, alt, shift, super_key, key), '+') == modifier_words(
            ctrl,
            alt,
            shift,
            super_key,
        ).push(key),
{
    let e = Seq::<char>::empty();
    let p1 = if ctrl { ctrl_word().push('+') } else { e };
    let p2 = if alt { alt_word().push('+') } else { e };
    let p3 = if shift { shift_word().push('+') } else { e };
    let p4 = if super_key { super_word().push('+') } else { e };
    let w1 = if ctrl { seq![ctrl_word()] } else { Seq::empty() };
    let w2 = if alt { seq![alt_word()] } else { Seq::empty() };
    let w3 = if shift { seq![shift_word()] } else { Seq::empty() };
    let w4 = if super_key { seq![super_word()] } else { Seq::empty() };
    assert(p1 =~= (if ctrl { seq!['C', 't', 'r', 'l', '+'] } else { e }));
    assert(p2 =~= (if alt { seq!['A', 'l', 't', '+'] } else { e }));
    assert(p3 =~= (if shift { seq!['S', 'h', 'i', 'f', 't', '+'] } else { e }));
    assert(p4 =~= (if super_key { seq!['S', 'u', 'p', 'e', 'r', '+'] } else { e }));
    assert(split_on(e, '+') == seq![e]);
    // after each prefix the pieces are the words so far and an open empty piece
    let x1 = e + p1;
    let x2 = x1 + p2;
    let x3 = x2 + p3;
    let x4 = x3 + p4;
    assert(split_on(e, '+') == Seq::<Seq<char>>::empty().push(e));
    assert(Seq::<Seq<char>>::empty() + w1 =~= w1);
    lemma_split_step(e, ctrl_word(), Seq::empty(), ctrl);
    lemma_split_step(x1, alt_word(), w1, alt);
    lemma_split_step(x2, shift_word(), w1 + w2, shift);
    lemma_split_step(x3, super_word(), w1 + w2 + w3, super_key);
    lemma_split_append_plain(x4, key);
    let ws = w1 + w2 + w3 + w4;
    assert(e + key =~= key);
    assert(ws.push(e).update(ws.len() as int, key) =~= ws.push(key));
    assert(x4 + key =~= binding_text(ctrl, alt, shift, super_key, key));
    assert(ws =~= modifier_words(ctrl, alt, shift, super_key));
}

/// Reading back the text of a binding gives the binding: a key that is not
/// empty, has no surrounding white space and no `+` survives the round trip
/// with every modifier flag.
pub proof fn lemma_binding_text_round_trip(
    ctrl: bool,
    alt: bool,
    shift: bool,
    super_key: bool,
    key: Seq<char>,
)
    requires
        key.len() > 0,
        trim(key) == key,
        lacks(key, '+'),
    ensures
        parse_binding_text(binding_text(ctrl, alt, shift, super_key, key)) == Ok::<
            BindingParts,
            BindingErrorKind,
        >(BindingParts { ctrl, alt, shift, super_key, key }),
{
    reveal(parse_binding_text);
    let text = binding_text(ctrl, alt, shift, super_key, key);
    lemma_split_binding_text(ctrl, alt, shift, super_key, key);
    lemma_trimmed_ends(key);
    assert(text.len() > 0 && text.last() == key.last()) by {
        assert(text.last() == key.last());
    }
    lemma_trim_start_len(text);
    assert(trim(text).len() > 0);
    let ws = modifier_words(ctrl, alt, shift, super_key);
    let toks = ws.push(key);
    let n = ws.len() as int;
    lemma_modifier_words_named();
    assert forall|i: int| 0 <= i < n implies modifier_named(normalize_key(#[trigger] toks[i]))
        is Some by {
        assert(toks[i] == ws[i]);
    }
    lemma_first_unknown_none(toks, n);
    assert(toks[n] == key);
    assert(names_modifier(toks, n, Modifier::Ctrl) == ctrl) by {
        if ctrl {
            assert(toks[0] == ctrl_word());
        }
    }
    assert(names_modifier(toks, n, Modifier::Alt) == alt) by {
        let k = if ctrl { 1int } else { 0int };
        if alt {
            assert(toks[k] == alt_word());
        }
    }
    assert(names_modifier(toks, n, Modifier::Shift) == shift) by {
        let k = (if ctrl { 1int } else { 0int }) + (if alt { 1int } else { 0int });
        if shift {
            assert(toks[k] == shift_word());
        }
    }
    assert(names_modifier(toks, n, Modifier::Super) == super_key) by {
        let k = (if ctrl { 1int } else { 0int }) + (if alt { 1int } else { 0int }) + (if shift {
            1int
        } else {
            0int
        });
        if super_key {
            assert(toks[k] == super_word());
        }
    }
}

} // verus!

verus! {

/// A binding whose key is well formed reads back from its text.
pub proof fn lemma_binding_reads_back(b: &ShortcutBinding)
    requires
        key_well_formed(b.key@),
    ensures
        parse_binding_text(b.text_spec()) == Ok::<BindingParts, BindingErrorKind>(b.parts()),
{
    lemma_binding_text_round_trip(b.ctrl, b.alt, b.shift, b.super_key, b.key@);
}

} // verus!
