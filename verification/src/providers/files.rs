//! File & folder search: Raycast-style `file <query>` / `folder <query>`
//! prefixes, bare-query detection, and the directory-name rules that keep
//! junk out of the file index.
use vstd::prelude::*;
use crate::text;
use super::{plain_result, row_view, RowView, SearchResult};

verus! {

/// Maximum results returned per prefixed query.
pub const MAX_RESULTS: usize = 30;

/// Maximum results returned for a bare (non-prefixed) query.
pub const BARE_RESULTS: usize = 6;

/// What kind of entries a `file`/`folder` query returns.
#[derive(Debug, Clone, Copy, PartialEq, Eq, Structural)]
pub enum SearchMode {
    Any,
    FoldersOnly,
}

/// A parsed file-search request.
#[derive(Debug)]
pub struct ParsedQuery {
    pub mode: SearchMode,
    pub term: String,
    /// True for bare queries (no `file`/`folder` prefix).
    pub bare: bool,
}

/// `q` is the word `w` alone or followed by a space (`ws` is `w` + `" "`).
pub open spec fn is_prefix_word(q: Seq<char>, w: Seq<char>, ws: Seq<char>) -> bool {
    q == w || text::starts_with(q, ws)
}

/// The prefix word of a `file`/`files`/`folder`/`folders` query and its mode.
pub open spec fn prefix_of(q: Seq<char>) -> Option<(SearchMode, Seq<char>)> {
    if is_prefix_word(q, "file"@, "file "@) {
        Some((SearchMode::Any, "file"@))
    } else if is_prefix_word(q, "files"@, "files "@) {
        Some((SearchMode::Any, "files"@))
    } else if is_prefix_word(q, "folder"@, "folder "@) {
        Some((SearchMode::FoldersOnly, "folder"@))
    } else if is_prefix_word(q, "folders"@, "folders "@) {
        Some((SearchMode::FoldersOnly, "folders"@))
    } else {
        None
    }
}

/// `parse_prefix`: the query is trimmed and lower-cased; after a prefix
/// word the rest (trimmed) is the search term.
pub open spec fn spec_parse_prefix(query: Seq<char>) -> Option<(SearchMode, Seq<char>)> {
    let q = text::unicode_lower(text::trim(query));
    match prefix_of(q) {
        Some((mode, word)) => Some((mode, text::trim(q.skip(word.len() as int)))),
        None => None,
    }
}

/// Queries owned by other providers: emoji (`:…`, `emoji…`), clipboard
/// history (`cbhist…`, `clip…`) and math (an operator and a digit).
pub open spec fn spec_is_other_domain(q: Seq<char>) -> bool {
    ||| text::starts_with(q, ":"@)
    ||| text::starts_with(q, "emoji"@)
    ||| text::starts_with(q, "cbhist"@)
    ||| text::starts_with(q, "clip"@)
    ||| ((exists|i: int| 0 <= i < q.len() && text::has_char("+-*/%^="@, #[trigger] q[i]))
        && (exists|i: int| 0 <= i < q.len() && text::is_digit(#[trigger] q[i])))
}

/// `parse_query`: a prefixed query, else a bare query of at least two UTF-8
/// bytes that is not another provider's domain.
pub open spec fn spec_parse_query(query: Seq<char>) -> Option<(SearchMode, Seq<char>, bool)> {
    match spec_parse_prefix(query) {
        Some((mode, term)) => Some((mode, term, false)),
        None => {
            let term = text::unicode_lower(text::trim(query));
            if text::utf8_len(term) < 2 || spec_is_other_domain(term) {
                None
            } else {
                Some((SearchMode::Any, term, true))
            }
        },
    }
}

/// Whether `q` is `w` alone or `w` followed by a space.
fn prefix_word(q: &Vec<char>, w: &str, ws: &str) -> (b: bool)
    ensures
        b == is_prefix_word(q@, w@, ws@),
{
    if text::eq_str(q, w) {
        return true;
    }
    let r = text::starts_with_at(q, 0, ws);
    assert(q@.skip(0) == q@);
    r
}

/// Parse a Raycast-style prefix query into a mode and a search term:
/// `"file notes"` → `(Any, "notes")`, `"folders"` → `(FoldersOnly, "")`,
/// `"firefox"` → `None`.
pub fn parse_prefix(query: &str) -> (r: Option<(SearchMode, String)>)
    ensures
        match spec_parse_prefix(query@) {
            Some((mode, term)) => r matches Some((m, t)) && m == mode && t@ == term,
            None => r is None,
        },
{
    let v = text::chars_of(query);
    let t = text::trim_chars(&v);
    let q = text::lower_unicode_chars(&t);
    let (mode, word): (SearchMode, &str) = if prefix_word(&q, "file", "file ") {
        (SearchMode::Any, "file")
    } else if prefix_word(&q, "files", "files ") {
        (SearchMode::Any, "files")
    } else if prefix_word(&q, "folder", "folder ") {
        (SearchMode::FoldersOnly, "folder")
    } else if prefix_word(&q, "folders", "folders ") {
        (SearchMode::FoldersOnly, "folders")
    } else {
        return None;
    };
    assert(prefix_of(q@) == Some((mode, word@)));
    let wv = text::chars_of(word);
    let n = wv.len();
    proof {
        reveal_strlit("file");
        reveal_strlit("file ");
        reveal_strlit("files");
        reveal_strlit("files ");
        reveal_strlit("folder");
        reveal_strlit("folder ");
        reveal_strlit("folders");
        reveal_strlit("folders ");
    }
    assert(n <= q.len());
    let rest = text::subvec(&q, n, q.len());
    assert(rest@ == q@.skip(n as int));
    let term = text::trim_chars(&rest);
    Some((mode, text::string_of(&term, 0, term.len())))
}

/// Whether a (trimmed, lower-cased) query belongs to another provider.
pub fn is_other_domain(q: &Vec<char>) -> (b: bool)
    ensures
        b == spec_is_other_domain(q@),
{
    assert(q@.skip(0) == q@);
    if text::starts_with_at(q, 0, ":") || text::starts_with_at(q, 0, "emoji") || text::starts_with_at(q, 0, "cbhist")
        || text::starts_with_at(q, 0, "clip") {
        return true;
    }
    let ops = text::chars_of("+-*/%^=");
    let mut has_op = false;
    let mut has_digit = false;
    let mut i: usize = 0;
    while i < q.len()
        invariant
            i <= q.len(),
            ops@ == "+-*/%^="@,
            has_op == (exists|j: int| 0 <= j < i && text::has_char("+-*/%^="@, #[trigger] q@[j])),
            has_digit == (exists|j: int| 0 <= j < i && text::is_digit(#[trigger] q@[j])),
        decreases q.len() - i,
    {
        if text::has_char_exec(&ops, q[i]) {
            has_op = true;
        }
        if text::is_ascii_digit(q[i]) {
            has_digit = true;
        }
        i += 1;
    }
    has_op && has_digit
}

/// Parse any query into a file search: explicit `file`/`folder` prefixes set
/// the mode; other queries (at least two bytes, not another provider's
/// domain) search files too, as bare queries.
pub fn parse_query(query: &str) -> (r: Option<ParsedQuery>)
    ensures
        match spec_parse_query(query@) {
            Some((mode, term, bare)) => r matches Some(p) && p.mode == mode && p.term@ == term
                && p.bare == bare,
            None => r is None,
        },
{
    if let Some((mode, term)) = parse_prefix(query) {
        return Some(ParsedQuery { mode, term, bare: false });
    }
    let v = text::chars_of(query);
    let t = text::trim_chars(&v);
    let term = text::lower_unicode_chars(&t);
    if text::utf8_len_of(&term) < 2 || is_other_domain(&term) {
        return None;
    }
    Some(ParsedQuery { mode: SearchMode::Any, term: text::string_of(&term, 0, term.len()), bare: true })
}

/// The row offering root folder `root` under `title`.
pub open spec fn root_row(title: Seq<char>, root: Seq<char>) -> RowView {
    (title, root, "folder"@, "files"@, root, None, 210)
}

/// One row per root whose title is not empty, in the roots' order.
pub open spec fn root_rows(roots: Seq<Seq<char>>, titles: Seq<Seq<char>>) -> Seq<RowView>
    decreases roots.len(),
{
    if roots.len() == 0 {
        Seq::empty()
    } else {
        let rest = root_rows(roots.drop_last(), titles.take(roots.len() - 1));
        let t = titles[roots.len() - 1];
        if t.len() == 0 {
            rest
        } else {
            rest.push(root_row(t, roots.last()))
        }
    }
}

/// The rows for the roots under the given titles (one title per root).
pub fn rows_for_roots(roots: &Vec<String>, titles: &Vec<String>) -> (r: Vec<SearchResult>)
    requires
        titles@.len() == roots@.len(),
    ensures
        ({
            let s = root_rows(text::string_views(roots@), text::string_views(titles@));
            &&& r@.len() == s.len()
            &&& forall|i: int| 0 <= i < s.len() ==> row_view(#[trigger] r@[i]) == s[i]
        }),
{
    let ghost rv = text::string_views(roots@);
    let ghost tv = text::string_views(titles@);
    let mut out: Vec<SearchResult> = Vec::new();
    let mut i: usize = 0;
    while i < roots.len()
        invariant
            i <= roots@.len(),
            titles@.len() == roots@.len(),
            rv == text::string_views(roots@),
            tv == text::string_views(titles@),
            out@.len() == root_rows(rv.take(i as int), tv.take(i as int)).len(),
            forall|k: int| 0 <= k < out@.len() ==> row_view(#[trigger] out@[k]) == root_rows(rv.take(i as int), tv.take(i as int))[k],
        decreases roots.len() - i,
    {
        let ghost before = root_rows(rv.take(i as int), tv.take(i as int));
        proof {
            let r1 = rv.take(i + 1);
            assert(r1.drop_last() == rv.take(i as int));
            assert(tv.take(i + 1).take(i as int) == tv.take(i as int));
            assert(r1.last() == roots@[i as int]@);
            assert(tv.take(i + 1)[i as int] == titles@[i as int]@);
        }
        if !titles[i].as_str().is_empty() {
            let row = plain_result(titles[i].clone(), roots[i].clone(), "folder", "files", roots[i].clone(), 210);
            proof {
                reveal_strlit("folder");
                reveal_strlit("files");
            }
            out.push(row);
            assert(root_rows(rv.take(i + 1), tv.take(i + 1)) == before.push(root_row(titles@[i as int]@, roots@[i as int]@)));
        } else {
            assert(titles@[i as int]@.len() == 0);
            assert(root_rows(rv.take(i + 1), tv.take(i + 1)) == before);
        }
        i += 1;
    }
    assert(rv.take(i as int) == rv);
    assert(tv.take(i as int) == tv);
    out
}

/// A title for `root`: a piece of it, and its final name when it ends in
/// `/` and a plain name.
pub open spec fn good_title(t: Seq<char>, root: Seq<char>) -> bool {
    &&& text::piece_of(t, root)
    &&& forall|d: Seq<char>, q: Seq<char>| #[trigger] text::ends_in_name(root, d, q) ==> t == q
}

/// The title of a root folder: its last component, else its parent's last
/// component, else the whole path.
fn root_title(root: &str) -> (t: String)
    ensures
        good_title(t@, root@),
{
    match text::path_file_name(root) {
        Some(n) => n,
        None => {
            let fallback = root.to_owned();
            assert(root@.subrange(0, 0 + fallback@.len() as int) == fallback@);
            match text::path_parent(root) {
                Some(q) => match text::path_file_name(q.as_str()) {
                    Some(n) => {
                        proof {
                            let i = choose|i: int| 0 <= i && i + n@.len() <= q@.len() && #[trigger] q@.subrange(i, i + n@.len()) == n@;
                            assert(root@.subrange(i, i + n@.len()) == n@);
                        }
                        n
                    },
                    None => fallback,
                },
                None => fallback,
            }
        },
    }
}

/// Each title is a piece of its root (see `good_title`).
pub open spec fn titles_of(roots: Seq<Seq<char>>, titles: Seq<Seq<char>>) -> bool {
    titles.len() == roots.len() && forall|j: int| 0 <= j < titles.len() ==> good_title(#[trigger] titles[j], roots[j])
}

/// The files provider: the extra folders to index and the scan roots
/// (Desktop, Documents, … and the extra folders that exist).
pub struct FilesProvider {
    pub search_dirs: Vec<String>,
    pub roots: Vec<String>,
}

impl FilesProvider {
    /// A provider over the given extra folders, with no roots resolved yet.
    pub fn new(search_dirs: Vec<String>) -> (p: Self)
        ensures
            p.search_dirs@ == search_dirs@,
            p.roots@.len() == 0,
    {
        FilesProvider { search_dirs, roots: Vec::new() }
    }

    /// Runs on every query that reads as a file search.
    pub fn should_run(&self, query: &str) -> (b: bool)
        ensures
            b == spec_parse_query(query@) is Some,
    {
        parse_query(query).is_some()
    }

    /// The row shown while the first scan runs and nothing is indexed yet.
    pub fn indexing_hint() -> (r: SearchResult)
        ensures
            r.title@ == "Indexing your files…"@,
            r.subtitle@ == "Results appear here once the scan finishes (a few seconds)"@,
            r.kind@ == "hint"@,
            r.provider_id@ == "files"@,
            r.action@ == Seq::<char>::empty(),
            r.icon_rgba is None,
            r.score == 0,
    {
        super::plain_result(
            "Indexing your files…".to_owned(),
            "Results appear here once the scan finishes (a few seconds)".to_owned(),
            "hint",
            "files",
            String::new(),
            0,
        )
    }
}

/// `r` holds the rows of `roots` under some titles, each a piece of its
/// root.
pub open spec fn offers_roots(roots: Seq<String>, r: Seq<SearchResult>) -> bool {
    exists|titles: Seq<Seq<char>>| {
        let s = #[trigger] root_rows(text::string_views(roots), titles);
        &&& titles_of(text::string_views(roots), titles)
        &&& r.len() == s.len()
        &&& forall|i: int| 0 <= i < s.len() ==> row_view(#[trigger] r[i]) == s[i]
    }
}

/// The row shown while the first scan runs.
pub open spec fn hint_row() -> RowView {
    (
        "Indexing your files…"@,
        "Results appear here once the scan finishes (a few seconds)"@,
        "hint"@,
        "files"@,
        Seq::empty(),
        None,
        0,
    )
}

impl FilesProvider {
    /// With an empty term: the scan roots as folder rows (score 210), each
    /// titled by its last path component, skipping a root whose title is
    /// empty.
    pub fn recommendations(&self) -> (r: Vec<SearchResult>)
        ensures
            offers_roots(self.roots@, r@),
    {
        let mut titles: Vec<String> = Vec::new();
        let mut i: usize = 0;
        while i < self.roots.len()
            invariant
                i <= self.roots@.len(),
                titles@.len() == i,
                forall|j: int| 0 <= j < i ==> good_title(#[trigger] titles@[j]@, self.roots@[j]@),
            decreases self.roots.len() - i,
        {
            titles.push(root_title(self.roots[i].as_str()));
            i += 1;
        }
        let r = rows_for_roots(&self.roots, &titles);
        assert(titles_of(text::string_views(self.roots@), text::string_views(titles@)));
        r
    }

    /// The rows that need no ranking of the index: none when `query` is no
    /// file search, the roots when its term is empty, the indexing hint
    /// while the first scan runs (`scanning`: a scan is under way and
    /// nothing is indexed yet). `None`: the index is to be ranked.
    pub fn early_rows(&self, query: &str, scanning: bool) -> (r: Option<Vec<SearchResult>>)
        ensures
            match spec_parse_query(query@) {
                None => r matches Some(v) && v@.len() == 0,
                Some((_, term, _)) => if term.len() == 0 {
                    r matches Some(v) && offers_roots(self.roots@, v@)
                } else if scanning {
                    r matches Some(v) && v@.len() == 1 && row_view(v@[0]) == hint_row()
                } else {
                    r is None
                },
            },
    {
        match parse_query(query) {
            None => Some(Vec::new()),
            Some(pq) => {
                if pq.term.as_str().is_empty() {
                    Some(self.recommendations())
                } else if scanning {
                    let hint = FilesProvider::indexing_hint();
                    let v = vec![hint];
                    assert(v@[0] == hint);
                    Some(v)
                } else {
                    None
                }
            },
        }
    }
}

// ---------------------------------------------------------------------------
// Index exclusions
// ---------------------------------------------------------------------------

/// Directory names (any ASCII case) never indexed.
pub open spec fn is_named_excluded(n: Seq<char>) -> bool {
    ||| text::eq_ignore_case(n, "node_modules"@)
    ||| text::eq_ignore_case(n, "target"@)
    ||| text::eq_ignore_case(n, ".git"@)
    ||| text::eq_ignore_case(n, ".hg"@)
    ||| text::eq_ignore_case(n, ".svn"@)
    ||| text::eq_ignore_case(n, "__pycache__"@)
    ||| text::eq_ignore_case(n, ".venv"@)
    ||| text::eq_ignore_case(n, "venv"@)
    ||| text::eq_ignore_case(n, "dist"@)
    ||| text::eq_ignore_case(n, "build"@)
    ||| text::eq_ignore_case(n, ".cache"@)
    ||| text::eq_ignore_case(n, ".cargo"@)
    ||| text::eq_ignore_case(n, ".rustup"@)
    ||| text::eq_ignore_case(n, "AppData"@)
    ||| text::eq_ignore_case(n, "$Recycle.Bin"@)
    ||| text::eq_ignore_case(n, "System Volume Information"@)
    ||| text::eq_ignore_case(n, "temp"@)
    ||| text::eq_ignore_case(n, "tmp"@)
}

/// Substrings (of the ASCII-lower-cased name) that disqualify a directory.
pub open spec fn has_excluded_substring(l: Seq<char>) -> bool {
    ||| text::contains_seq(l, "cache"@)
    ||| text::contains_seq(l, "backup"@)
    ||| text::contains_seq(l, "media"@)
    ||| text::contains_seq(l, "libraries"@)
    ||| text::contains_seq(l, "site-packages"@)
    ||| text::contains_seq(l, "dcim"@)
    ||| text::contains_seq(l, "firefox"@)
}

/// Android photo-dump folders (compared ASCII-lower-cased).
pub open spec fn is_android_dump(l: Seq<char>) -> bool {
    ||| l == "100pint"@
    ||| l == "100media"@
    ||| l == "100andro"@
    ||| l == "100ncfc"@
    ||| l == "100anni"@
}

pub open spec fn spec_is_excluded_dir(name: Seq<char>) -> bool {
    is_named_excluded(name) || has_excluded_substring(text::ascii_lower(name)) || is_android_dump(
        text::ascii_lower(name),
    )
}

/// Junk directories the file index never enters: build/dependency folders,
/// caches, backups, media dumps and Windows system folders.
pub fn is_excluded_dir(name: &str) -> (b: bool)
    ensures
        b == spec_is_excluded_dir(name@),
{
    let n = text::chars_of(name);
    let named = text::eq_ignore_case_str(&n, "node_modules") || text::eq_ignore_case_str(&n, "target")
        || text::eq_ignore_case_str(&n, ".git") || text::eq_ignore_case_str(&n, ".hg") || text::eq_ignore_case_str(
        &n,
        ".svn",
    ) || text::eq_ignore_case_str(&n, "__pycache__") || text::eq_ignore_case_str(&n, ".venv")
        || text::eq_ignore_case_str(&n, "venv") || text::eq_ignore_case_str(&n, "dist") || text::eq_ignore_case_str(
        &n,
        "build",
    ) || text::eq_ignore_case_str(&n, ".cache") || text::eq_ignore_case_str(&n, ".cargo")
        || text::eq_ignore_case_str(&n, ".rustup") || text::eq_ignore_case_str(&n, "AppData")
        || text::eq_ignore_case_str(&n, "$Recycle.Bin") || text::eq_ignore_case_str(
        &n,
        "System Volume Information",
    ) || text::eq_ignore_case_str(&n, "temp") || text::eq_ignore_case_str(&n, "tmp");
    if named {
        return true;
    }
    let l = text::lower_chars(&n);
    let sub = text::contains_str(&l, "cache") || text::contains_str(&l, "backup") || text::contains_str(&l, "media")
        || text::contains_str(&l, "libraries") || text::contains_str(&l, "site-packages") || text::contains_str(
        &l,
        "dcim",
    ) || text::contains_str(&l, "firefox");
    sub || text::eq_str(&l, "100pint") || text::eq_str(&l, "100media") || text::eq_str(&l, "100andro") || text::eq_str(
        &l,
        "100ncfc",
    ) || text::eq_str(&l, "100anni")
}

/// `s` without its leading run of `c`.
pub open spec fn strip_leading(s: Seq<char>, c: char) -> Seq<char>
    decreases s.len(),
{
    if s.len() > 0 && s[0] == c {
        strip_leading(s.drop_first(), c)
    } else {
        s
    }
}

/// Version-numbered names: after dropping leading `v`s and then leading
/// `V`s, only digits and `.`/`-`/`_`, at least one digit, and a dot.
pub open spec fn spec_is_version_dir(name: Seq<char>) -> bool {
    let t = strip_leading(strip_leading(name, 'v'), 'V');
    &&& forall|i: int|
        0 <= i < t.len() ==> (text::is_digit(#[trigger] t[i]) || t[i] == '.' || t[i] == '-' || t[i]
            == '_')
    &&& exists|i: int| 0 <= i < t.len() && text::is_digit(#[trigger] t[i])
    &&& text::has_char(t, '.')
}

proof fn lemma_strip_leading_skip(s: Seq<char>, c: char, i: int)
    requires
        0 <= i <= s.len(),
        forall|j: int| 0 <= j < i ==> #[trigger] s[j] == c,
    ensures
        strip_leading(s, c) == strip_leading(s.skip(i), c),
    decreases i,
{
    if i > 0 {
        lemma_strip_leading_skip(s.drop_first(), c, i - 1);
        assert(s.drop_first().skip(i - 1) == s.skip(i));
    } else {
        assert(s.skip(0) == s);
    }
}

fn strip_leading_exec(v: &Vec<char>, c: char) -> (r: Vec<char>)
    ensures
        r@ == strip_leading(v@, c),
{
    let mut i: usize = 0;
    while i < v.len() && v[i] == c
        invariant
            i <= v.len(),
            forall|j: int| 0 <= j < i ==> #[trigger] v@[j] == c,
        decreases v.len() - i,
    {
        i += 1;
    }
    proof {
        lemma_strip_leading_skip(v@, c, i as int);
    }
    text::subvec(v, i, v.len())
}

/// Version-numbered directories (`0.1.0`, `1.0.32`, `v2.0`) — package
/// install trees that pollute the index.
pub fn is_version_dir(name: &str) -> (b: bool)
    ensures
        b == spec_is_version_dir(name@),
{
    let n = text::chars_of(name);
    let a = strip_leading_exec(&n, 'v');
    let t = strip_leading_exec(&a, 'V');
    if t.len() == 0 {
        return false;
    }
    let mut digits_seen = false;
    let mut i: usize = 0;
    while i < t.len()
        invariant
            i <= t.len(),
            t@ == strip_leading(strip_leading(name@, 'v'), 'V'),
            forall|j: int|
                0 <= j < i ==> (text::is_digit(#[trigger] t@[j]) || t@[j] == '.' || t@[j] == '-'
                    || t@[j] == '_'),
            digits_seen == (exists|j: int| 0 <= j < i && text::is_digit(#[trigger] t@[j])),
        decreases t.len() - i,
    {
        let c = t[i];
        if text::is_ascii_digit(c) {
            digits_seen = true;
        } else if c == '.' || c == '-' || c == '_' {
        } else {
            assert(!(text::is_digit(t@[i as int]) || t@[i as int] == '.' || t@[i as int] == '-'
                || t@[i as int] == '_'));
            return false;
        }
        i += 1;
    }
    digits_seen && text::has_char_exec(&t, '.')
}

/// Hidden entries (leading dot).
pub fn is_hidden(name: &str) -> (b: bool)
    ensures
        b == text::starts_with(name@, "."@),
{
    let n = text::chars_of(name);
    let r = text::starts_with_at(&n, 0, ".");
    assert(n@.skip(0) == n@);
    r
}

} // verus!
