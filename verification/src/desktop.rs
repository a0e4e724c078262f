//! Installed applications as the launcher lists them, how a query matches
//! one, and how long labels are shortened.
use vstd::prelude::*;
use crate::text::{chars_of, string_from, trim, trim_str, to_lowercase, unicode_lowercase, contains_seq, contains_chars};

verus! {

/// An application the launcher can start: its name, the `Exec` line it was
/// read from, and the command with its arguments.
#[derive(Debug)]
pub struct DesktopApp {
    pub name: String,
    pub exec_line: String,
    pub command: String,
    pub args: Vec<String>,
    search_blob: String,
}

/// The text a query is searched in: the lower-cased name and `Exec` line on
/// two lines.
pub open spec fn search_text(name: Seq<char>, exec_line: Seq<char>) -> Seq<char> {
    unicode_lowercase(name) + seq!['\n'] + unicode_lowercase(exec_line)
}

/// A query as it is matched: trimmed, then lower-cased.
pub open spec fn normalized_query(query: Seq<char>) -> Seq<char> {
    unicode_lowercase(trim(query))
}

impl DesktopApp {
    /// The text a query is searched in.
    pub closed spec fn blob(&self) -> Seq<char> {
        self.search_blob@
    }

    /// The application's name.
    pub closed spec fn name_text(&self) -> Seq<char> {
        self.name@
    }

    /// The `Exec` line it was read from.
    pub closed spec fn exec_text(&self) -> Seq<char> {
        self.exec_line@
    }

    /// The command that starts it.
    pub closed spec fn command_text(&self) -> Seq<char> {
        self.command@
    }

    /// The arguments of the command.
    pub closed spec fn arguments(&self) -> Seq<String> {
        self.args@
    }

    /// An application entry; its search text is made from the name and the
    /// `Exec` line.
    pub fn new(name: String, exec_line: String, command: String, args: Vec<String>) -> (r: Self)
        ensures
            r.name_text() == name@,
            r.exec_text() == exec_line@,
            r.command_text() == command@,
            r.arguments() == args@,
            r.blob() == search_text(name@, exec_line@),
    {
        let mut search_blob = to_lowercase(name.as_str());
        search_blob.push('\n');
        let lower_exec = to_lowercase(exec_line.as_str());
        search_blob.push_str(lower_exec.as_str());
        DesktopApp { name, exec_line, command, args, search_blob }
    }

    /// Whether the application matches a query: an empty (normalised) query
    /// matches everything, any other must occur in the search text.
    pub fn matches_query(&self, query: &str) -> (r: bool)
        ensures
            r == (normalized_query(query@).len() == 0 || contains_seq(
                self.blob(),
                normalized_query(query@),
            )),
    {
        let trimmed = trim_str(query);
        let normalized = to_lowercase(trimmed.as_str());
        let needle = chars_of(normalized.as_str());
        if needle.len() == 0 {
            return true;
        }
        let hay = chars_of(self.search_blob.as_str());
        contains_chars(hay.as_slice(), needle.as_slice())
    }
}

/// `query` normalised for matching: trimmed, then lower-cased.
pub fn normalize_query(query: &str) -> (r: String)
    ensures
        r@ == normalized_query(query@),
{
    let trimmed = trim_str(query);
    to_lowercase(trimmed.as_str())
}

/// A label cut to at most `max_len` characters: a longer one keeps its first
/// `max_len - 1` characters (none when `max_len` is zero) and ends in `~`.
pub open spec fn trimmed_label(value: Seq<char>, max_len: nat) -> Seq<char> {
    if value.len() <= max_len {
        value
    } else {
        value.take(if max_len == 0 { 0 } else { max_len - 1 }).push('~')
    }
}

/// Shortens a label for display; see `trimmed_label`.
pub fn trim_label(value: &str, max_len: usize) -> (r: String)
    ensures
        r@ == trimmed_label(value@, max_len as nat),
{
    let chars = chars_of(value);
    if chars.len() <= max_len {
        return string_from(chars.as_slice());
    }
    let keep = if max_len == 0 {
        0
    } else {
        max_len - 1
    };
    let mut out: Vec<char> = Vec::new();
    let mut i: usize = 0;
    while i < keep
        invariant
            keep < chars.len(),
            i <= keep,
            out@ == chars@.take(i as int),
        decreases keep - i,
    {
        out.push(chars[i]);
        i = i + 1;
        assert(out@ =~= chars@.take(i as int));
    }
    out.push('~');
    string_from(out.as_slice())
}

/// Whether `app` matches `query`: the normalised query is empty or occurs in
/// the application's search text.
pub open spec fn app_matches(app: DesktopApp, query: Seq<char>) -> bool {
    normalized_query(query).len() == 0 || contains_seq(app.blob(), normalized_query(query))
}

/// The indices, in list order, of the first applications among the first
/// `n` that match `query`, at most `limit` of them.
pub open spec fn first_matches(apps: Seq<DesktopApp>, query: Seq<char>, n: int, limit: nat) -> Seq<usize>
    decreases n,
{
    if n <= 0 {
        Seq::empty()
    } else {
        let before = first_matches(apps, query, n - 1, limit);
        if before.len() < limit && app_matches(apps[n - 1], query) {
            before.push((n - 1) as usize)
        } else {
            before
        }
    }
}

/// The indices of the applications that match `query`, in list order, at
/// most `limit` of them.
pub fn matching_apps(apps: &[DesktopApp], query: &str, limit: usize) -> (r: Vec<usize>)
    ensures
        r@ == first_matches(apps@, query@, apps@.len() as int, limit as nat),
{
    let mut r: Vec<usize> = Vec::new();
    let mut i: usize = 0;
    while i < apps.len()
        invariant
            i <= apps@.len(),
            r@ == first_matches(apps@, query@, i as int, limit as nat),
        decreases apps@.len() - i,
    {
        if r.len() < limit && apps[i].matches_query(query) {
            r.push(i);
        }
        i = i + 1;
    }
    r
}

} // verus!
