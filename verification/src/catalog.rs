//! Which desktop entries become launcher applications, and in what order:
//! visible `Application` entries with a name and a runnable `Exec` line,
//! each distinct (name, command, arguments) once, sorted by lower-cased name
//! with ties kept in reading order.
use vstd::prelude::*;
use crate::text::{unicode_lowercase, to_lowercase, chars_of, owned};
use crate::shortcut::equal_chars;
use crate::desktop::{DesktopApp, search_text};

verus! {

/// What the launcher reads of one desktop entry file: its `Hidden` and
/// `NoDisplay` flags, its `Type`, its `Name` in the user's language and its
/// untranslated `Name`, its `Exec` line, its `Icon`, the file's path, and
/// the gettext domain it names for translations (`X-Ubuntu-Gettext-Domain`).
pub struct EntryRecord {
    pub hidden: bool,
    pub no_display: bool,
    pub kind: Option<String>,
    pub name: Option<String>,
    pub default_name: Option<String>,
    pub exec_line: Option<String>,
    pub icon: Option<String>,
    pub path: String,
    pub gettext_domain: Option<String>,
}

/// An entry with its `Exec` line split into words (`None` where the line
/// does not split into a command).
pub struct ParsedEntry {
    pub hidden: bool,
    pub no_display: bool,
    pub kind: Option<String>,
    pub name: Option<String>,
    pub exec_line: Option<String>,
    pub exec_words: Option<Vec<String>>,
}

/// The text of an optional string; empty when absent.
pub open spec fn text_of(o: Option<String>) -> Seq<char> {
    match o {
        Some(s) => s@,
        None => Seq::empty(),
    }
}

/// The words of an optional split `Exec` line; none when absent.
pub open spec fn words_of(o: Option<Vec<String>>) -> Seq<String> {
    match o {
        Some(w) => w@,
        None => Seq::empty(),
    }
}

/// A name for the words `DesktopEntry::parse_exec` splits an `Exec` line
/// into, given the entry's `Icon`, untranslated `Name` and path (which the
/// `%i`, `%c` and `%k` field codes stand for), when no gettext domain
/// applies; `None` where it refuses the line.
pub uninterp spec fn exec_words_spec(exec: Seq<char>, icon: Option<Seq<char>>, name: Option<Seq<char>>, path: Seq<char>) -> Option<Seq<Seq<char>>>;

/// The view of an optional string slice.
pub open spec fn opt_str(o: Option<&str>) -> Option<Seq<char>> {
    match o {
        Some(s) => Some(s@),
        None => None,
    }
}

/// The view of an optional string.
pub open spec fn opt_string(o: Option<String>) -> Option<Seq<char>> {
    match o {
        Some(s) => Some(s@),
        None => None,
    }
}

/// The views of a list of words.
pub open spec fn words_view(w: Seq<String>) -> Seq<Seq<char>> {
    w.map_values(|s: String| s@)
}

/// Wraps `DesktopEntry::parse_exec` of freedesktop-desktop-entry on an entry
/// holding the given `Exec`, `Icon` and untranslated `Name`, path and
/// gettext domain. Its words, when it gives some, are never empty and the
/// first holds no `=` (it refuses both). Without a gettext domain the result
/// depends on the other arguments alone and is named `exec_words_spec`;
/// with one, `%c` is translated through the system's message catalogues,
/// and nothing more is stated.
#[verifier::external_body]
fn parse_exec_words(
    exec: &str,
    icon: Option<&str>,
    name: Option<&str>,
    path: &str,
    gettext_domain: Option<&str>,
) -> (r: Option<Vec<String>>)
    ensures
        r matches Some(w) ==> w@.len() > 0 && !w@[0]@.contains('='),
        gettext_domain is None ==> exec_words_spec(exec@, opt_str(icon), opt_str(name), path@) == match r {
            Some(w) => Some(words_view(w@)),
            None => None::<Seq<Seq<char>>>,
        },
{
    let mut entry = freedesktop_desktop_entry::DesktopEntry {
        appid: String::new(),
        groups: freedesktop_desktop_entry::Groups::default(),
        path: std::path::PathBuf::from(path),
        ubuntu_gettext_domain: gettext_domain.map(|d| d.to_string()),
    };
    entry.add_desktop_entry("Exec".to_string(), exec.to_string());
    if let Some(icon) = icon {
        entry.add_desktop_entry("Icon".to_string(), icon.to_string());
    }
    if let Some(name) = name {
        entry.add_desktop_entry("Name".to_string(), name.to_string());
    }
    entry.parse_exec().ok()
}

/// Whether an entry can be listed at all: shown, of type `Application` (or
/// of no type), named, with an `Exec` line that splits into at least a
/// command.
pub open spec fn is_listed(e: ParsedEntry) -> bool {
    &&& !e.hidden
    &&& !e.no_display
    &&& (match e.kind {
        Some(k) => k@ == "Application"@,
        None => true,
    })
    &&& e.name is Some
    &&& e.exec_line is Some
    &&& e.exec_words is Some
    &&& words_of(e.exec_words).len() > 0
}

/// Words joined with NUL characters between them.
pub open spec fn joined(parts: Seq<String>) -> Seq<char>
    decreases parts.len(),
{
    if parts.len() == 0 {
        Seq::empty()
    } else if parts.len() == 1 {
        parts[0]@
    } else {
        joined(parts.drop_last()).push('\0') + parts.last()@
    }
}

/// The identity of a listed entry: name, command and arguments, separated
/// by NUL characters. Two entries with the same identity are listed once.
pub open spec fn identity(e: ParsedEntry) -> Seq<char> {
    let w = words_of(e.exec_words);
    text_of(e.name).push('\0') + w[0]@.push('\0') + joined(w.drop_first())
}

/// Whether entry `i` is listed and no listed entry before it has its
/// identity.
pub open spec fn first_of_its_kind(es: Seq<ParsedEntry>, i: int) -> bool {
    &&& is_listed(es[i])
    &&& forall|j: int| 0 <= j < i && is_listed(#[trigger] es[j]) ==> identity(es[j]) != identity(es[i])
}

/// The key applications are sorted by: the lower-cased name.
pub open spec fn name_key(es: Seq<ParsedEntry>, i: int) -> Seq<char> {
    unicode_lowercase(text_of(es[i].name))
}

/// Lexicographic order of character sequences by code point, a proper
/// prefix first (the order of `String`).
pub open spec fn chars_before(a: Seq<char>, b: Seq<char>) -> bool
    decreases a.len(),
{
    if a.len() == 0 {
        b.len() > 0
    } else if b.len() == 0 {
        false
    } else if a[0] != b[0] {
        (a[0] as int) < (b[0] as int)
    } else {
        chars_before(a.drop_first(), b.drop_first())
    }
}

/// Whether entry `i` is listed before entry `j`: by name key, then by
/// reading order.
pub open spec fn listed_before(es: Seq<ParsedEntry>, i: int, j: int) -> bool {
    ||| chars_before(name_key(es, i), name_key(es, j))
    ||| (name_key(es, i) == name_key(es, j) && i < j)
}

/// The entries among the first `n` that are listed, in reading order.
pub open spec fn survivors(es: Seq<ParsedEntry>, n: int) -> Seq<int>
    decreases n,
{
    if n <= 0 {
        Seq::empty()
    } else if first_of_its_kind(es, n - 1) {
        survivors(es, n - 1).push(n - 1)
    } else {
        survivors(es, n - 1)
    }
}

/// `x` inserted into `l` behind every entry whose name key is not greater
/// than its own.
pub open spec fn insert_ordered(es: Seq<ParsedEntry>, l: Seq<int>, x: int) -> Seq<int>
    decreases l.len(),
{
    if l.len() == 0 {
        seq![x]
    } else if chars_before(name_key(es, x), name_key(es, l.last())) {
        insert_ordered(es, l.drop_last(), x).push(l.last())
    } else {
        l.push(x)
    }
}

/// The entries `s` inserted one after another by `insert_ordered`.
pub open spec fn listing_from(es: Seq<ParsedEntry>, s: Seq<int>) -> Seq<int>
    decreases s.len(),
{
    if s.len() == 0 {
        Seq::empty()
    } else {
        insert_ordered(es, listing_from(es, s.drop_last()), s.last())
    }
}

/// The entries the launcher lists, in the order it lists them.
pub open spec fn listing(es: Seq<ParsedEntry>) -> Seq<int> {
    listing_from(es, survivors(es, es.len() as int))
}

/// Whether `l` is in strict `listed_before` order.
pub open spec fn in_listing_order(es: Seq<ParsedEntry>, l: Seq<int>) -> bool {
    forall|a: int, b: int| 0 <= a < b < l.len() ==> listed_before(es, #[trigger] l[a], #[trigger] l[b])
}

proof fn lemma_chars_before_irreflexive(a: Seq<char>)
    ensures
        !chars_before(a, a),
    decreases a.len(),
{
    if a.len() > 0 {
        lemma_chars_before_irreflexive(a.drop_first());
    }
}

proof fn lemma_chars_before_transitive(a: Seq<char>, b: Seq<char>, c: Seq<char>)
    requires
        chars_before(a, b),
        chars_before(b, c),
    ensures
        chars_before(a, c),
    decreases a.len(),
{
    if a.len() > 0 && b.len() > 0 && c.len() > 0 && a[0] == b[0] && b[0] == c[0] {
        lemma_chars_before_transitive(a.drop_first(), b.drop_first(), c.drop_first());
    }
}

proof fn lemma_chars_before_total(a: Seq<char>, b: Seq<char>)
    requires
        a != b,
    ensures
        chars_before(a, b) || chars_before(b, a),
    decreases a.len(),
{
    if a.len() > 0 && b.len() > 0 && a[0] == b[0] {
        if a.drop_first() == b.drop_first() {
            assert(a =~= seq![a[0]] + a.drop_first());
            assert(b =~= seq![b[0]] + b.drop_first());
        } else {
            lemma_chars_before_total(a.drop_first(), b.drop_first());
        }
    } else if a.len() == 0 && b.len() == 0 {
        assert(a =~= b);
    }
}

proof fn lemma_listed_before_transitive(es: Seq<ParsedEntry>, i: int, j: int, k: int)
    requires
        listed_before(es, i, j),
        listed_before(es, j, k),
    ensures
        listed_before(es, i, k),
{
    if chars_before(name_key(es, i), name_key(es, j)) && chars_before(name_key(es, j), name_key(es, k)) {
        lemma_chars_before_transitive(name_key(es, i), name_key(es, j), name_key(es, k));
    }
}

proof fn lemma_insert_keeps_order(es: Seq<ParsedEntry>, l: Seq<int>, x: int)
    requires
        in_listing_order(es, l),
        forall|k: int| 0 <= k < l.len() ==> #[trigger] l[k] < x,
    ensures
        in_listing_order(es, insert_ordered(es, l, x)),
        insert_ordered(es, l, x).len() == l.len() + 1,
        forall|y: int| #[trigger] insert_ordered(es, l, x).contains(y) <==> (l.contains(y) || y == x),
    decreases l.len(),
{
    let r = insert_ordered(es, l, x);
    if l.len() == 0 {
        assert(r =~= seq![x]);
        assert forall|y: int| #[trigger] r.contains(y) <==> (l.contains(y) || y == x) by {
            if y == x {
                assert(r[0] == x);
            }
        }
    } else {
        let last = l.last();
        let m = l.drop_last();
        if chars_before(name_key(es, x), name_key(es, last)) {
            assert(in_listing_order(es, m));
            lemma_insert_keeps_order(es, m, x);
            let q = insert_ordered(es, m, x);
            assert(r == q.push(last));
            assert forall|a: int, b: int| 0 <= a < b < r.len() implies listed_before(
                es,
                #[trigger] r[a],
                #[trigger] r[b],
            ) by {
                if b < q.len() {
                    assert(r[a] == q[a] && r[b] == q[b]);
                } else {
                    assert(r[b] == last);
                    assert(q.contains(q[a]));
                    if q[a] != x {
                        let c = choose|c: int| 0 <= c < m.len() && m[c] == q[a];
                        assert(l[c] == m[c]);
                        assert(listed_before(es, l[c], l[l.len() - 1]));
                    }
                }
            }
            assert forall|y: int| (l.contains(y) || y == x) implies #[trigger] r.contains(y) by {
                if y == x {
                    assert(q.contains(x));
                    let c = choose|c: int| 0 <= c < q.len() && q[c] == x;
                    assert(r[c] == x);
                } else if y == last {
                    assert(r[r.len() - 1] == y);
                } else {
                    let c = choose|c: int| 0 <= c < l.len() && l[c] == y;
                    assert(c != l.len() - 1);
                    assert(m[c] == y);
                    assert(m.contains(y));
                    assert(q.contains(y));
                    let d = choose|d: int| 0 <= d < q.len() && q[d] == y;
                    assert(r[d] == y);
                }
            }
            assert forall|y: int| #[trigger] r.contains(y) ==> (l.contains(y) || y == x) by {
                if r.contains(y) {
                    let c = choose|c: int| 0 <= c < r.len() && r[c] == y;
                    if c == r.len() - 1 {
                        assert(l[l.len() - 1] == y);
                    } else {
                        assert(q[c] == y);
                        assert(q.contains(y));
                        if y != x {
                            let d = choose|d: int| 0 <= d < m.len() && m[d] == y;
                            assert(l[d] == y);
                        }
                    }
                }
            }
        } else {
            assert(r == l.push(x));
            if name_key(es, last) != name_key(es, x) {
                lemma_chars_before_total(name_key(es, last), name_key(es, x));
            }
            assert(listed_before(es, last, x));
            assert forall|a: int, b: int| 0 <= a < b < r.len() implies listed_before(
                es,
                #[trigger] r[a],
                #[trigger] r[b],
            ) by {
                if b < l.len() {
                    assert(r[a] == l[a] && r[b] == l[b]);
                } else if a == l.len() - 1 {
                    assert(r[a] == last && r[b] == x);
                } else {
                    assert(r[a] == l[a] && r[b] == x);
                    assert(listed_before(es, l[a], l[l.len() - 1]));
                    lemma_listed_before_transitive(es, l[a], last, x);
                }
            }
            assert forall|y: int| #[trigger] r.contains(y) <==> (l.contains(y) || y == x) by {
                if r.contains(y) {
                    let c = choose|c: int| 0 <= c < r.len() && r[c] == y;
                    if c < l.len() {
                        assert(l[c] == y);
                    }
                }
                if l.contains(y) {
                    let c = choose|c: int| 0 <= c < l.len() && l[c] == y;
                    assert(r[c] == y);
                }
                if y == x {
                    assert(r[l.len() as int] == x);
                }
            }
        }
    }
}

proof fn lemma_listing_from(es: Seq<ParsedEntry>, s: Seq<int>)
    requires
        forall|a: int, b: int| 0 <= a < b < s.len() ==> #[trigger] s[a] < #[trigger] s[b],
    ensures
        in_listing_order(es, listing_from(es, s)),
        listing_from(es, s).len() == s.len(),
        forall|y: int| #[trigger] listing_from(es, s).contains(y) <==> s.contains(y),
    decreases s.len(),
{
    if s.len() > 0 {
        let m = s.drop_last();
        assert forall|a: int, b: int| 0 <= a < b < m.len() implies #[trigger] m[a] < #[trigger] m[b] by {
            assert(s[a] < s[b]);
        }
        lemma_listing_from(es, m);
        let l = listing_from(es, m);
        let x = s.last();
        assert forall|k: int| 0 <= k < l.len() implies #[trigger] l[k] < x by {
            assert(l.contains(l[k]));
            let c = choose|c: int| 0 <= c < m.len() && m[c] == l[k];
            assert(s[c] < s[s.len() - 1]);
        }
        lemma_insert_keeps_order(es, l, x);
        assert forall|y: int| #[trigger] listing_from(es, s).contains(y) <==> s.contains(y) by {
            if s.contains(y) {
                let c = choose|c: int| 0 <= c < s.len() && s[c] == y;
                if c < m.len() {
                    assert(m[c] == y);
                    assert(m.contains(y));
                }
            }
            if m.contains(y) {
                let c = choose|c: int| 0 <= c < m.len() && m[c] == y;
                assert(s[c] == y);
            }
        }
    }
}

proof fn lemma_survivors(es: Seq<ParsedEntry>, n: int)
    requires
        0 <= n <= es.len(),
    ensures
        forall|a: int, b: int| 0 <= a < b < survivors(es, n).len() ==> #[trigger] survivors(es, n)[a] < #[trigger] survivors(es, n)[b],
        forall|k: int| 0 <= k < survivors(es, n).len() ==> 0 <= #[trigger] survivors(es, n)[k] < n,
        forall|i: int| #[trigger] survivors(es, n).contains(i) <==> (0 <= i < n && first_of_its_kind(es, i)),
    decreases n,
{
    if n > 0 {
        lemma_survivors(es, n - 1);
        let p = survivors(es, n - 1);
        let s = survivors(es, n);
        assert forall|i: int| #[trigger] s.contains(i) <==> (0 <= i < n && first_of_its_kind(es, i)) by {
            if s.contains(i) {
                let c = choose|c: int| 0 <= c < s.len() && s[c] == i;
                if c < p.len() {
                    assert(p[c] == i);
                    assert(p.contains(i));
                }
            }
            if 0 <= i < n && first_of_its_kind(es, i) {
                if i < n - 1 {
                    assert(p.contains(i));
                    let c = choose|c: int| 0 <= c < p.len() && p[c] == i;
                    assert(s[c] == i);
                } else {
                    assert(s[s.len() - 1] == i);
                }
            }
        }
    }
}

/// The applications listed are exactly the first entry of each identity
/// among the listable ones, in strict order of lower-cased name and, for
/// equal names, of reading order.
pub proof fn lemma_listing_order(es: Seq<ParsedEntry>)
    ensures
        in_listing_order(es, listing(es)),
        forall|i: int| #[trigger] listing(es).contains(i) <==> (0 <= i < es.len() && first_of_its_kind(es, i)),
{
    lemma_survivors(es, es.len() as int);
    lemma_listing_from(es, survivors(es, es.len() as int));
}

/// Whether `app` is the application made from entry `e`: its name, `Exec`
/// line, command (the first word) and arguments (the other words).
pub open spec fn shows_entry(app: DesktopApp, e: ParsedEntry) -> bool {
    let w = words_of(e.exec_words);
    &&& app.name_text() == text_of(e.name)
    &&& app.exec_text() == text_of(e.exec_line)
    &&& app.command_text() == w[0]@
    &&& app.arguments() == w.drop_first()
    &&& app.blob() == search_text(text_of(e.name), text_of(e.exec_line))
}

proof fn lemma_insert_at(es: Seq<ParsedEntry>, l: Seq<int>, x: int, p: int)
    requires
        0 <= p <= l.len(),
        forall|q: int| p <= q < l.len() ==> chars_before(name_key(es, x), name_key(es, #[trigger] l[q])),
        p > 0 ==> !chars_before(name_key(es, x), name_key(es, l[p - 1])),
    ensures
        insert_ordered(es, l, x) == l.insert(p, x),
    decreases l.len(),
{
    if l.len() == 0 {
        assert(l.insert(p, x) =~= seq![x]);
    } else if p == l.len() {
        assert(l.insert(p, x) =~= l.push(x));
    } else {
        let m = l.drop_last();
        assert(chars_before(name_key(es, x), name_key(es, l[l.len() - 1])));
        assert forall|q: int| p <= q < m.len() implies chars_before(name_key(es, x), name_key(es, #[trigger] m[q])) by {
            assert(m[q] == l[q]);
        }
        lemma_insert_at(es, m, x, p);
        assert(l.insert(p, x) =~= m.insert(p, x).push(l.last()));
    }
}

proof fn lemma_joined_step(w: Seq<String>, j: int)
    requires
        1 <= j < w.len(),
    ensures
        joined(w.subrange(1, j + 1)) == if j == 1 {
            w[1]@
        } else {
            joined(w.subrange(1, j)).push('\0') + w[j]@
        },
{
    let parts = w.subrange(1, j + 1);
    if j > 1 {
        assert(parts.drop_last() =~= w.subrange(1, j));
    }
}

/// `chars_before` on slices.
pub fn chars_less(a: &[char], b: &[char]) -> (r: bool)
    ensures
        r == chars_before(a@, b@),
{
    let mut i: usize = 0;
    assert(a@.skip(0) =~= a@ && b@.skip(0) =~= b@);
    while i < a.len() && i < b.len() && a[i] == b[i]
        invariant
            i <= a.len(),
            i <= b.len(),
            chars_before(a@, b@) == chars_before(a@.skip(i as int), b@.skip(i as int)),
        decreases a.len() - i,
    {
        assert(a@.skip(i as int).drop_first() =~= a@.skip(i + 1));
        assert(b@.skip(i as int).drop_first() =~= b@.skip(i + 1));
        i = i + 1;
    }
    if i == a.len() {
        i < b.len()
    } else if i == b.len() {
        false
    } else {
        a[i] < b[i]
    }
}

fn push_chars(v: &mut Vec<char>, s: &str)
    ensures
        final(v)@ == old(v)@ + s@,
{
    let cs = chars_of(s);
    let mut k: usize = 0;
    while k < cs.len()
        invariant
            cs@ == s@,
            k <= cs.len(),
            v@ == old(v)@ + cs@.take(k as int),
        decreases cs.len() - k,
    {
        v.push(cs[k]);
        k = k + 1;
        assert(v@ =~= old(v)@ + cs@.take(k as int));
    }
    assert(cs@.take(k as int) =~= cs@);
}

fn identity_chars(name: &String, words: &Vec<String>) -> (k: Vec<char>)
    requires
        words@.len() > 0,
    ensures
        k@ == name@.push('\0') + words@[0]@.push('\0') + joined(words@.drop_first()),
{
    let mut k: Vec<char> = Vec::new();
    push_chars(&mut k, name.as_str());
    k.push('\0');
    push_chars(&mut k, words[0].as_str());
    k.push('\0');
    let ghost head = name@.push('\0') + words@[0]@.push('\0');
    assert(k@ =~= head + joined(words@.subrange(1, 1)));
    let mut j: usize = 1;
    while j < words.len()
        invariant
            1 <= j <= words@.len(),
            head == name@.push('\0') + words@[0]@.push('\0'),
            k@ == head + joined(words@.subrange(1, j as int)),
        decreases words.len() - j,
    {
        proof {
            lemma_joined_step(words@, j as int);
        }
        if j > 1 {
            k.push('\0');
        }
        push_chars(&mut k, words[j].as_str());
        j = j + 1;
        assert(k@ =~= head + joined(words@.subrange(1, j as int)));
    }
    assert(words@.subrange(1, j as int) =~= words@.drop_first());
    k
}

fn listable(e: &ParsedEntry) -> (r: bool)
    ensures
        r == is_listed(*e),
{
    if e.hidden || e.no_display {
        return false;
    }
    match &e.kind {
        Some(k) => {
            let application = owned("Application");
            if !(*k == application) {
                return false;
            }
        },
        None => {},
    }
    if e.name.is_none() || e.exec_line.is_none() {
        return false;
    }
    match &e.exec_words {
        Some(w) => w.len() > 0,
        None => false,
    }
}

fn app_of(e: &ParsedEntry) -> (app: DesktopApp)
    requires
        is_listed(*e),
    ensures
        shows_entry(app, *e),
{
    match (&e.name, &e.exec_line, &e.exec_words) {
        (Some(name), Some(exec_line), Some(words)) => {
            let mut args: Vec<String> = Vec::new();
            let mut j: usize = 1;
            while j < words.len()
                invariant
                    1 <= j <= words@.len(),
                    args@ == words@.subrange(1, j as int),
                decreases words.len() - j,
            {
                args.push(words[j].clone());
                j = j + 1;
                assert(args@ =~= words@.subrange(1, j as int));
            }
            assert(args@ =~= words@.drop_first());
            DesktopApp::new(name.clone(), exec_line.clone(), words[0].clone(), args)
        },
        _ => {
            proof {
                assert(false);
            }
            DesktopApp::new(String::new(), String::new(), String::new(), Vec::new())
        },
    }
}

/// The applications listed for the desktop entries read: see `listing` and
/// `lemma_listing_order`. Each application is made from its entry by
/// `shows_entry`.
pub fn apps_from_parsed(entries: &Vec<ParsedEntry>) -> (apps: Vec<DesktopApp>)
    ensures
        apps@.len() == listing(entries@).len(),
        forall|k: int| 0 <= k < apps@.len() ==> shows_entry(#[trigger] apps@[k], entries@[listing(entries@)[k]]),
        in_listing_order(entries@, listing(entries@)),
        forall|i: int| #[trigger] listing(entries@).contains(i) <==> (0 <= i < entries@.len() && first_of_its_kind(entries@, i)),
{
    let ghost es = entries@;
    let mut flags: Vec<bool> = Vec::new();
    let mut keys: Vec<Vec<char>> = Vec::new();
    let mut order: Vec<usize> = Vec::new();
    let mut sort_keys: Vec<Vec<char>> = Vec::new();
    let mut apps: Vec<DesktopApp> = Vec::new();
    let mut i: usize = 0;
    while i < entries.len()
        invariant
            es == entries@,
            i <= es.len(),
            flags@.len() == i,
            keys@.len() == i,
            forall|j: int| 0 <= j < i ==> #[trigger] flags@[j] == is_listed(es[j]),
            forall|j: int| 0 <= j < i && #[trigger] flags@[j] ==> keys@[j]@ == identity(es[j]),
            order@.len() == listing_from(es, survivors(es, i as int)).len(),
            sort_keys@.len() == order@.len(),
            apps@.len() == order@.len(),
            forall|k: int| 0 <= k < order@.len() ==> #[trigger] order@[k] as int == listing_from(es, survivors(es, i as int))[k],
            forall|k: int| 0 <= k < order@.len() ==> #[trigger] sort_keys@[k]@ == name_key(es, order@[k] as int),
            forall|k: int| 0 <= k < order@.len() ==> shows_entry(#[trigger] apps@[k], es[order@[k] as int]),
        decreases es.len() - i,
    {
        let e = &entries[i];
        let listed = listable(e);
        let mut key: Vec<char> = Vec::new();
        let mut fresh = false;
        match (&e.name, &e.exec_words) {
            (Some(name), Some(words)) => {
                if listed {
                    key = identity_chars(name, words);
                    let mut found = false;
                    let mut j: usize = 0;
                    while j < i
                        invariant
                            i < es.len(),
                            j <= i,
                            flags@.len() == i,
                            keys@.len() == i,
                            found == exists|t: int| 0 <= t < j && flags@[t] && #[trigger] keys@[t]@ == key@,
                        decreases i - j,
                    {
                        if flags[j] && equal_chars(keys[j].as_slice(), key.as_slice()) {
                            found = true;
                        }
                        j = j + 1;
                    }
                    fresh = !found;
                }
            },
            _ => {},
        }
        proof {
            if listed {
                assert(key@ == identity(es[i as int]));
                if fresh {
                    assert forall|j: int| 0 <= j < i && is_listed(#[trigger] es[j]) implies identity(es[j]) != identity(es[i as int]) by {
                        assert(flags@[j]);
                        if identity(es[j]) == identity(es[i as int]) {
                            assert(keys@[j]@ == key@);
                        }
                    }
                } else {
                    let t = choose|t: int| 0 <= t < i && flags@[t] && #[trigger] keys@[t]@ == key@;
                    assert(is_listed(es[t]));
                }
            }
        }
        assert(fresh == first_of_its_kind(es, i as int));
        let ghost before = listing_from(es, survivors(es, i as int));
        if fresh {
            let (name, words) = match (&e.name, &e.exec_words) {
                (Some(name), Some(words)) => (name, words),
                _ => {
                    proof {
                        assert(false);
                    }
                    return Vec::new();
                },
            };
            let lower = to_lowercase(name.as_str());
            let lk = chars_of(lower.as_str());
            let mut p: usize = order.len();
            let mut stop = false;
            while !stop && p > 0
                invariant
                    p <= order@.len(),
                    sort_keys@.len() == order@.len(),
                    lk@ == name_key(es, i as int),
                    forall|k: int| 0 <= k < order@.len() ==> #[trigger] sort_keys@[k]@ == name_key(es, order@[k] as int),
                    forall|q: int| p <= q < order@.len() ==> chars_before(name_key(es, i as int), name_key(es, #[trigger] order@[q] as int)),
                    stop ==> p > 0 && !chars_before(name_key(es, i as int), name_key(es, order@[p - 1] as int)),
                decreases 2 * p + (if stop { 0int } else { 1int }),
            {
                if chars_less(lk.as_slice(), sort_keys[p - 1].as_slice()) {
                    p = p - 1;
                } else {
                    stop = true;
                }
            }
            proof {
                assert forall|q: int| p <= q < before.len() implies chars_before(name_key(es, i as int), name_key(es, #[trigger] before[q])) by {
                    assert(before[q] == order@[q] as int);
                }
                if p > 0 {
                    assert(before[p - 1] == order@[p - 1] as int);
                }
                lemma_insert_at(es, before, i as int, p as int);
                assert(survivors(es, i + 1) == survivors(es, i as int).push(i as int));
                assert(survivors(es, i + 1).drop_last() =~= survivors(es, i as int));
            }
            let app = app_of(e);
            let ghost old_order = order@;
            let ghost old_keys = sort_keys@;
            let ghost old_apps = apps@;
            order.insert(p, i);
            sort_keys.insert(p, lk);
            apps.insert(p, app);
            proof {
                let after = listing_from(es, survivors(es, i + 1));
                assert(after == before.insert(p as int, i as int));
                assert forall|k: int| 0 <= k < order@.len() implies {
                    &&& #[trigger] order@[k] as int == after[k]
                    &&& sort_keys@[k]@ == name_key(es, order@[k] as int)
                    &&& shows_entry(apps@[k], es[order@[k] as int])
                } by {
                    if k < p {
                        assert(order@[k] == old_order[k]);
                        assert(sort_keys@[k] == old_keys[k]);
                        assert(apps@[k] == old_apps[k]);
                    } else if k > p {
                        assert(order@[k] == old_order[k - 1]);
                        assert(sort_keys@[k] == old_keys[k - 1]);
                        assert(apps@[k] == old_apps[k - 1]);
                    }
                }
            }
        } else {
            assert(survivors(es, i + 1) == survivors(es, i as int));
        }
        flags.push(listed);
        keys.push(key);
        i = i + 1;
    }
    proof {
        lemma_listing_order(es);
    }
    apps
}

/// Whether `p` is `e` with its `Exec` line split: the fields read are kept;
/// there are no words without an `Exec` line; words, when there are some,
/// are not empty and the first holds no `=`; and without a gettext domain
/// they are the ones `exec_words_spec` names.
pub open spec fn parsed_from(e: EntryRecord, p: ParsedEntry) -> bool {
    &&& p.hidden == e.hidden
    &&& p.no_display == e.no_display
    &&& p.kind == e.kind
    &&& p.name == e.name
    &&& p.exec_line == e.exec_line
    &&& match e.exec_line {
        None => p.exec_words is None,
        Some(ex) => {
            &&& (p.exec_words matches Some(w) ==> w@.len() > 0 && !w@[0]@.contains('='))
            &&& e.gettext_domain is None ==> exec_words_spec(
                ex@,
                opt_string(e.icon),
                opt_string(e.default_name),
                e.path@,
            ) == match p.exec_words {
                Some(w) => Some(words_view(w@)),
                None => None::<Seq<Seq<char>>>,
            }
        },
    }
}

fn opt_as_str(o: &Option<String>) -> (r: Option<&str>)
    ensures
        opt_str(r) == opt_string(*o),
{
    match o {
        Some(s) => Some(s.as_str()),
        None => None,
    }
}

fn opt_clone(o: &Option<String>) -> (r: Option<String>)
    ensures
        r == *o,
{
    match o {
        Some(s) => Some(s.clone()),
        None => None,
    }
}

/// Splits the `Exec` line of an entry read from disk; see `parsed_from`.
pub fn parse_entry(e: &EntryRecord) -> (p: ParsedEntry)
    ensures
        parsed_from(*e, p),
{
    let exec_words = match &e.exec_line {
        Some(ex) => parse_exec_words(
            ex.as_str(),
            opt_as_str(&e.icon),
            opt_as_str(&e.default_name),
            e.path.as_str(),
            opt_as_str(&e.gettext_domain),
        ),
        None => None,
    };
    ParsedEntry {
        hidden: e.hidden,
        no_display: e.no_display,
        kind: opt_clone(&e.kind),
        name: opt_clone(&e.name),
        exec_line: opt_clone(&e.exec_line),
        exec_words,
    }
}

/// The applications listed for the desktop entries read from disk: each entry is split by `parse_entry`, and the split
/// entries are listed by `apps_from_parsed`.
pub fn apps_from_entries(entries: &Vec<EntryRecord>) -> (apps: Vec<DesktopApp>)
    ensures
        exists|ps: Seq<ParsedEntry>|
            {
                &&& ps.len() == entries@.len()
                &&& forall|i: int| 0 <= i < ps.len() ==> parsed_from(entries@[i], #[trigger] ps[i])
                &&& apps@.len() == listing(ps).len()
                &&& forall|k: int| 0 <= k < apps@.len() ==> shows_entry(#[trigger] apps@[k], ps[listing(ps)[k]])
            },
{
    let mut parsed: Vec<ParsedEntry> = Vec::new();
    let mut i: usize = 0;
    while i < entries.len()
        invariant
            i <= entries@.len(),
            parsed@.len() == i,
            forall|j: int| 0 <= j < i ==> parsed_from(entries@[j], #[trigger] parsed@[j]),
        decreases entries@.len() - i,
    {
        let p = parse_entry(&entries[i]);
        parsed.push(p);
        i = i + 1;
    }
    let apps = apps_from_parsed(&parsed);
    assert(parsed@.len() == entries@.len());
    apps
}

} // verus!
