//! Installed applications: the app index, recommendations for an empty
//! query, the integer core of the fuzzy name match, and the path checks
//! that keep only executables.
//!
//! The final fuzzy score and the favourites boost are floating point and
//! are combined outside the library from `FuzzyParts`.
use vstd::prelude::*;
use crate::text;
use super::{plain_result, SearchResult};

verus! {

/// An indexed application.
pub struct InstalledApp {
    pub name: String,
    pub executable_path: String,
    /// Its icon (RGBA, width, height), when one was found.
    pub icon_rgba: Option<(Vec<u8>, u32, u32)>,
}

/// The apps provider: the current index and the extra folders to scan.
pub struct AppsProvider {
    pub apps: Vec<InstalledApp>,
    pub search_dirs: Vec<String>,
}

/// A path separator on Windows.
pub open spec fn is_sep(c: char) -> bool {
    c == '\\' || c == '/'
}

/// `p` without trailing separators.
pub open spec fn strip_trailing_seps(p: Seq<char>) -> Seq<char>
    decreases p.len(),
{
    if p.len() > 0 && is_sep(p.last()) {
        strip_trailing_seps(p.drop_last())
    } else {
        p
    }
}

/// The index of the last character of `s` before `end` satisfying `f`.
pub open spec fn last_where(s: Seq<char>, end: int, f: spec_fn(char) -> bool) -> Option<int>
    decreases end,
{
    if end <= 0 || end > s.len() {
        None
    } else if f(s[end - 1]) {
        Some(end - 1)
    } else {
        last_where(s, end - 1, f)
    }
}

/// The last component of a Windows path (trailing separators ignored).
pub open spec fn last_component(p: Seq<char>) -> Seq<char> {
    let t = strip_trailing_seps(p);
    match last_where(t, t.len() as int, |c: char| is_sep(c)) {
        Some(k) => t.skip(k + 1),
        None => t,
    }
}

/// The extension of a path: what follows the last dot of its last
/// component, when that dot is not the component's first character; none
/// for `..`.
pub open spec fn extension(p: Seq<char>) -> Option<Seq<char>> {
    let n = last_component(p);
    if n == ".."@ {
        None
    } else {
        match last_where(n, n.len() as int, |c: char| c == '.') {
            Some(k) => if k == 0 {
                None
            } else {
                Some(n.skip(k + 1))
            },
            None => None,
        }
    }
}

/// The path's extension is `ext`, ignoring ASCII case.
pub open spec fn has_extension(p: Seq<char>, ext: Seq<char>) -> bool {
    match extension(p) {
        Some(e) => text::eq_ignore_case(e, ext),
        None => false,
    }
}

fn extension_exec(p: &str) -> (r: Option<Vec<char>>)
    ensures
        match extension(p@) {
            Some(e) => r matches Some(v) && v@ == e,
            None => r is None,
        },
{
    let v = text::chars_of(p);
    let mut end = v.len();
    assert(v@.take(v@.len() as int) == v@);
    while end > 0 && (v[end - 1] == '\\' || v[end - 1] == '/')
        invariant
            end <= v@.len(),
            v@ == p@,
            strip_trailing_seps(v@.take(end as int)) == strip_trailing_seps(p@),
        decreases end,
    {
        assert(v@.take(end as int).drop_last() == v@.take(end - 1));
        end -= 1;
    }
    let t = text::subvec(&v, 0, end);
    assert(t@ == v@.take(end as int));
    let mut k = t.len();
    while k > 0 && !(t[k - 1] == '\\' || t[k - 1] == '/')
        invariant
            k <= t@.len(),
            last_where(t@, k as int, |c: char| is_sep(c)) == last_where(t@, t@.len() as int, |c: char| is_sep(c)),
        decreases k,
    {
        k -= 1;
    }
    let n = text::subvec(&t, k, t.len());
    proof {
        if k > 0 {
            assert(n@ == t@.skip(k as int));
        } else {
            assert(n@ == t@);
        }
    }
    proof {
        reveal_strlit("..");
    }
    if text::eq_str(&n, "..") {
        return None;
    }
    let mut d = n.len();
    while d > 0 && n[d - 1] != '.'
        invariant
            d <= n@.len(),
            last_where(n@, d as int, |c: char| c == '.') == last_where(n@, n@.len() as int, |c: char| c == '.'),
        decreases d,
    {
        d -= 1;
    }
    if d <= 1 {
        None
    } else {
        let e = text::subvec(&n, d, n.len());
        assert(e@ == n@.skip(d as int));
        Some(e)
    }
}

/// The path names an `.exe` (any ASCII case).
pub fn is_executable_path(path: &str) -> (b: bool)
    ensures
        b == has_extension(path@, "exe"@),
{
    match extension_exec(path) {
        Some(e) => text::eq_ignore_case_str(&e, "exe"),
        None => false,
    }
}

/// The path names an `.ico` (any ASCII case).
pub fn is_ico_path(path: &str) -> (b: bool)
    ensures
        b == has_extension(path@, "ico"@),
{
    match extension_exec(path) {
        Some(e) => text::eq_ignore_case_str(&e, "ico"),
        None => false,
    }
}

/// An app's row, with the given score.
pub open spec fn app_row(app: InstalledApp, score: i64) -> super::RowView {
    (
        app.name@,
        "Application"@,
        "app"@,
        "apps"@,
        app.executable_path@,
        match app.icon_rgba {
            Some((px, w, h)) => Some((px@, w, h)),
            None => None,
        },
        score,
    )
}

/// The app's executable or name is `key`.
fn key_matches(a: &InstalledApp, key: &str) -> (b: bool)
    ensures
        b == (a.executable_path@ == key@ || a.name@ == key@),
{
    let ev = text::chars_of(a.executable_path.as_str());
    let nv = text::chars_of(a.name.as_str());
    text::eq_str(&ev, key) || text::eq_str(&nv, key)
}

fn clone_icon(icon: &Option<(Vec<u8>, u32, u32)>) -> (r: Option<(Vec<u8>, u32, u32)>)
    ensures
        match *icon {
            Some((px, w, h)) => r matches Some((px2, w2, h2)) && px2@ == px@ && w2 == w && h2 == h,
            None => r is None,
        },
{
    match icon {
        Some((px, w, h)) => {
            let mut out: Vec<u8> = Vec::new();
            let mut i: usize = 0;
            while i < px.len()
                invariant
                    i <= px@.len(),
                    out@ == px@.take(i as int),
                decreases px.len() - i,
            {
                out.push(px[i]);
                i += 1;
                assert(out@ == px@.take(i as int));
            }
            assert(px@.take(px@.len() as int) == px@);
            Some((out, *w, *h))
        },
        None => None,
    }
}

/// An app's row.
fn result_for(app: &InstalledApp, score: i64) -> (r: SearchResult)
    ensures
        super::row_view(r) == app_row(*app, score),
{
    let icon = clone_icon(&app.icon_rgba);
    SearchResult {
        title: app.name.clone(),
        subtitle: "Application".to_owned(),
        kind: "app".to_owned(),
        provider_id: "apps".to_owned(),
        action: app.executable_path.clone(),
        icon_rgba: icon,
        score,
    }
}

/// The first app from `i` on whose executable or name is `key`.
pub open spec fn find_app(apps: Seq<InstalledApp>, key: Seq<char>, i: int) -> Option<int>
    decreases apps.len() - i,
{
    if i < 0 || i >= apps.len() {
        None
    } else if apps[i].executable_path@ == key || apps[i].name@ == key {
        Some(i)
    } else {
        find_app(apps, key, i + 1)
    }
}

/// Some chosen app has the executable of app `j`.
pub open spec fn has_exe(apps: Seq<InstalledApp>, chosen: Seq<(int, i64)>, j: int) -> bool {
    exists|t: int| 0 <= t < chosen.len() && apps[#[trigger] chosen[t].0].executable_path@ == apps[j].executable_path@
}

/// The recommended apps after the first `n` launch keys: each key's app,
/// scored 200, unless its executable is already chosen.
pub open spec fn recommend_keys(apps: Seq<InstalledApp>, keys: Seq<Seq<char>>, n: int) -> Seq<(int, i64)>
    decreases n,
{
    if n <= 0 || n > keys.len() {
        Seq::empty()
    } else {
        let prev = recommend_keys(apps, keys, n - 1);
        match find_app(apps, keys[n - 1], 0) {
            Some(j) => if has_exe(apps, prev, j) {
                prev
            } else {
                prev.push((j, 200))
            },
            None => prev,
        }
    }
}

/// Then the apps in index order, scored 100, while fewer than `limit` are
/// chosen, skipping executables already chosen.
pub open spec fn recommend_fill(apps: Seq<InstalledApp>, chosen: Seq<(int, i64)>, n: int, limit: int) -> Seq<(int, i64)>
    decreases n,
{
    if n <= 0 || n > apps.len() {
        chosen
    } else {
        let prev = recommend_fill(apps, chosen, n - 1, limit);
        if prev.len() >= limit || has_exe(apps, prev, n - 1) {
            prev
        } else {
            prev.push((n - 1, 100))
        }
    }
}

/// The recommendations for an empty query: the apps launched most (from
/// the launch keys, most frequent first, scored 200) then the others in
/// index order (scored 100) up to `limit`, one row per executable.
pub open spec fn recommendations_spec(apps: Seq<InstalledApp>, keys: Seq<Seq<char>>, limit: int) -> Seq<(int, i64)> {
    recommend_fill(apps, recommend_keys(apps, keys, keys.len() as int), apps.len() as int, limit)
}

impl AppsProvider {
    /// An empty index over the given extra folders.
    pub fn new(search_dirs: Vec<String>) -> (p: Self)
        ensures
            p.apps@.len() == 0,
            p.search_dirs@ == search_dirs@,
    {
        AppsProvider { apps: Vec::new(), search_dirs }
    }

    fn chosen_has_exe(&self, chosen: &Vec<usize>, j: usize) -> (b: bool)
        requires
            j < self.apps@.len(),
            forall|t: int| 0 <= t < chosen@.len() ==> #[trigger] chosen@[t] < self.apps@.len(),
        ensures
            b == exists|t: int|
                0 <= t < chosen@.len() && self.apps@[#[trigger] chosen@[t] as int].executable_path@
                    == self.apps@[j as int].executable_path@,
    {
        let target = text::chars_of(self.apps[j].executable_path.as_str());
        let mut t: usize = 0;
        while t < chosen.len()
            invariant
                t <= chosen@.len(),
                j < self.apps@.len(),
                target@ == self.apps@[j as int].executable_path@,
                forall|u: int| 0 <= u < chosen@.len() ==> #[trigger] chosen@[u] < self.apps@.len(),
                forall|u: int|
                    0 <= u < t ==> self.apps@[#[trigger] chosen@[u] as int].executable_path@ != target@,
            decreases chosen.len() - t,
        {
            let c = chosen[t];
            let cv = text::chars_of(self.apps[c].executable_path.as_str());
            if text::eq_str(&cv, self.apps[j].executable_path.as_str()) {
                return true;
            }
            t += 1;
        }
        false
    }

    /// Recommendations for an empty query (see `recommendations_spec`):
    /// `launch_keys` are the most launched keys, most frequent first (an
    /// executable path, or an app name from older records).
    pub fn recommendations(&self, launch_keys: &Vec<String>, limit: usize) -> (r: Vec<SearchResult>)
        ensures
            ({
                let rec = recommendations_spec(self.apps@, text::string_views(launch_keys@), limit as int);
                &&& r@.len() == rec.len()
                &&& forall|i: int|
                    0 <= i < rec.len() ==> super::row_view(#[trigger] r@[i]) == app_row(self.apps@[rec[i].0], rec[i].1)
            }),
    {
        let ghost apps = self.apps@;
        let ghost keys = text::string_views(launch_keys@);
        let mut chosen: Vec<usize> = Vec::new();
        let mut scores: Vec<i64> = Vec::new();
        let mut k: usize = 0;
        while k < launch_keys.len()
            invariant
                k <= launch_keys@.len(),
                apps == self.apps@,
                keys == text::string_views(launch_keys@),
                chosen@.len() == scores@.len(),
                forall|t: int| 0 <= t < chosen@.len() ==> #[trigger] chosen@[t] < apps.len(),
                Seq::new(chosen@.len(), |t: int| (chosen@[t] as int, scores@[t])) == recommend_keys(apps, keys, k as int),
            decreases launch_keys.len() - k,
        {
            let key = text::chars_of(launch_keys[k].as_str());
            assert(keys[k as int] == launch_keys@[k as int]@);
            let mut j: usize = 0;
            while j < self.apps.len() && !key_matches(&self.apps[j], launch_keys[k].as_str())
                invariant
                    j <= apps.len(),
                    apps == self.apps@,
                    k < launch_keys@.len(),
                    key@ == keys[k as int],
                    keys[k as int] == launch_keys@[k as int]@,
                    find_app(apps, key@, j as int) == find_app(apps, key@, 0),
                decreases self.apps.len() - j,
            {
                j += 1;
            }
            let ghost prev = Seq::new(chosen@.len(), |t: int| (chosen@[t] as int, scores@[t]));
            if j < self.apps.len() {
                assert(find_app(apps, key@, 0) == Some(j as int));
                let dup = self.chosen_has_exe(&chosen, j);
                proof {
                    assert(dup == has_exe(apps, prev, j as int)) by {
                        if dup {
                            let t = choose|t: int|
                                0 <= t < chosen@.len() && apps[#[trigger] chosen@[t] as int].executable_path@
                                    == apps[j as int].executable_path@;
                            assert(prev[t].0 == chosen@[t] as int);
                        } else {
                            assert forall|t: int| 0 <= t < prev.len() implies apps[#[trigger] prev[t].0].executable_path@
                                != apps[j as int].executable_path@ by {
                                assert(prev[t].0 == chosen@[t] as int);
                            }
                        }
                    }
                }
                if !dup {
                    chosen.push(j);
                    scores.push(200);
                    assert(Seq::new(chosen@.len(), |t: int| (chosen@[t] as int, scores@[t])) == prev.push((j as int, 200)));
                }
            } else {
                assert(find_app(apps, key@, 0) is None);
            }
            k += 1;
        }
        let mut j: usize = 0;
        let ghost start = Seq::new(chosen@.len(), |t: int| (chosen@[t] as int, scores@[t]));
        assert(start == recommend_keys(apps, keys, keys.len() as int));
        while j < self.apps.len()
            invariant
                j <= apps.len(),
                apps == self.apps@,
                start == recommend_keys(apps, keys, keys.len() as int),
                chosen@.len() == scores@.len(),
                forall|t: int| 0 <= t < chosen@.len() ==> #[trigger] chosen@[t] < apps.len(),
                Seq::new(chosen@.len(), |t: int| (chosen@[t] as int, scores@[t])) == recommend_fill(apps, start, j as int, limit as int),
            decreases self.apps.len() - j,
        {
            let ghost prev = Seq::new(chosen@.len(), |t: int| (chosen@[t] as int, scores@[t]));
            if chosen.len() < limit {
                let dup = self.chosen_has_exe(&chosen, j);
                proof {
                    assert(dup == has_exe(apps, prev, j as int)) by {
                        if dup {
                            let t = choose|t: int|
                                0 <= t < chosen@.len() && apps[#[trigger] chosen@[t] as int].executable_path@
                                    == apps[j as int].executable_path@;
                            assert(prev[t].0 == chosen@[t] as int);
                        } else {
                            assert forall|t: int| 0 <= t < prev.len() implies apps[#[trigger] prev[t].0].executable_path@
                                != apps[j as int].executable_path@ by {
                                assert(prev[t].0 == chosen@[t] as int);
                            }
                        }
                    }
                }
                if !dup {
                    chosen.push(j);
                    scores.push(100);
                    assert(Seq::new(chosen@.len(), |t: int| (chosen@[t] as int, scores@[t])) == prev.push((j as int, 100)));
                }
            }
            j += 1;
        }
        let ghost fin = Seq::new(chosen@.len(), |t: int| (chosen@[t] as int, scores@[t]));
        let mut out: Vec<SearchResult> = Vec::new();
        let mut t: usize = 0;
        while t < chosen.len()
            invariant
                t <= chosen@.len(),
                apps == self.apps@,
                chosen@.len() == scores@.len(),
                forall|u: int| 0 <= u < chosen@.len() ==> #[trigger] chosen@[u] < apps.len(),
                fin == Seq::new(chosen@.len(), |u: int| (chosen@[u] as int, scores@[u])),
                out@.len() == t,
                forall|u: int| 0 <= u < t ==> super::row_view(#[trigger] out@[u]) == app_row(apps[fin[u].0], fin[u].1),
            decreases chosen.len() - t,
        {
            out.push(result_for(&self.apps[chosen[t]], scores[t]));
            t += 1;
        }
        out
    }
}

// ---------------------------------------------------------------------------
// Fuzzy match, integer part
// ---------------------------------------------------------------------------

/// The integer parts of a fuzzy match, from which the score is
/// `(raw + position bonus) / query_len`, with a position bonus of 50 when
/// the first match is at 0, else `(1 - first / name_len) * 30`.
pub struct FuzzyParts {
    /// Match points less two for each unmatched name byte.
    pub raw: i64,
    /// Byte index of the first matched byte.
    pub first: usize,
    /// Bytes in the name.
    pub name_len: usize,
    /// Bytes in the query.
    pub query_len: usize,
}

/// A byte that starts a word after it: space, `-`, `_`, `/`, `\`.
pub open spec fn is_word_sep(b: u8) -> bool {
    b == 0x20 || b == 0x2D || b == 0x5F || b == 0x2F || b == 0x5C
}

pub open spec fn is_upper_byte(b: u8) -> bool {
    0x41 <= b <= 0x5A
}

pub open spec fn is_lower_byte(b: u8) -> bool {
    0x61 <= b <= 0x7A
}

pub open spec fn is_alnum_byte(b: u8) -> bool {
    (0x30 <= b <= 0x39) || is_upper_byte(b) || is_lower_byte(b)
}

/// The points for matching name byte `ti`: 10, plus 15 right after another
/// match, 30 at the start or after a word separator, 20 at a lower-to-upper
/// case change, 15 after a non-alphanumeric byte.
pub open spec fn match_points(t: Seq<u8>, ti: int, prev: bool) -> int {
    10 + (if prev {
        15int
    } else {
        0
    }) + (if ti == 0 || is_word_sep(t[ti - 1]) {
        30int
    } else {
        0
    }) + (if ti > 0 && is_upper_byte(t[ti]) && is_lower_byte(t[ti - 1]) {
        20int
    } else {
        0
    }) + (if ti > 0 && !is_alnum_byte(t[ti - 1]) {
        15int
    } else {
        0
    })
}

/// The scan state after the first `n` bytes of the lower-cased name:
/// query bytes matched, points, whether the last byte matched, the first
/// matched position.
pub open spec fn fuzzy_scan(q: Seq<u8>, t: Seq<u8>, tl: Seq<u8>, n: int) -> (int, int, bool, Option<int>)
    decreases n,
{
    if n <= 0 {
        (0, 0, false, None)
    } else {
        let (qi, pts, prev, first) = fuzzy_scan(q, t, tl, n - 1);
        let ti = n - 1;
        if qi < q.len() && tl[ti] == q[qi] {
            (
                qi + 1,
                pts + match_points(t, ti, prev),
                true,
                if first is None {
                    Some(ti)
                } else {
                    first
                },
            )
        } else {
            (qi, pts, false, first)
        }
    }
}

/// The fuzzy match of query bytes `q` against the name's bytes `t` and its
/// lower-cased bytes `tl`: none for an empty query, a query longer than the
/// name, or when the query is not matched in order.
pub open spec fn spec_fuzzy_core(q: Seq<u8>, t: Seq<u8>, tl: Seq<u8>) -> Option<(int, int)> {
    if q.len() == 0 || q.len() > t.len() {
        None
    } else {
        let (qi, pts, _, first) = fuzzy_scan(q, t, tl, tl.len() as int);
        if qi != q.len() {
            None
        } else {
            match first {
                Some(f) => Some((pts - 2 * (t.len() - qi), f)),
                None => None,
            }
        }
    }
}

proof fn lemma_fuzzy_scan_bounds(q: Seq<u8>, t: Seq<u8>, tl: Seq<u8>, n: int)
    requires
        0 <= n <= tl.len(),
    ensures
        ({
            let (qi, pts, prev, first) = fuzzy_scan(q, t, tl, n);
            &&& 0 <= qi <= n
            &&& qi <= q.len()
            &&& 0 <= pts <= 90 * qi
            &&& (qi > 0 <==> first is Some)
            &&& (first matches Some(f) ==> 0 <= f < n)
            &&& (prev ==> n > 0)
        }),
    decreases n,
{
    if n > 0 {
        lemma_fuzzy_scan_bounds(q, t, tl, n - 1);
    }
}

/// `idx` places the bytes of `q` in `s` in order: one increasing position
/// per query byte, holding that byte.
pub open spec fn placed_in(q: Seq<u8>, s: Seq<u8>, idx: Seq<int>) -> bool {
    &&& idx.len() == q.len()
    &&& forall|k: int| 0 <= k < idx.len() ==> 0 <= #[trigger] idx[k] < s.len() && s[idx[k]] == q[k]
    &&& forall|a: int, b: int| 0 <= a < b < idx.len() ==> #[trigger] idx[a] < #[trigger] idx[b]
}

/// `q` is a subsequence of `s`.
pub open spec fn is_subsequence(q: Seq<u8>, s: Seq<u8>) -> bool {
    exists|idx: Seq<int>| #[trigger] placed_in(q, s, idx)
}

/// The scan's matches are a placement of the query bytes it matched, all
/// before `n`.
proof fn lemma_scan_places(q: Seq<u8>, t: Seq<u8>, tl: Seq<u8>, n: int) -> (idx: Seq<int>)
    requires
        0 <= n <= tl.len(),
    ensures
        placed_in(q.take(fuzzy_scan(q, t, tl, n).0), tl, idx),
        forall|k: int| 0 <= k < idx.len() ==> #[trigger] idx[k] < n,
    decreases n,
{
    lemma_fuzzy_scan_bounds(q, t, tl, n);
    if n == 0 {
        Seq::empty()
    } else {
        let prev = lemma_scan_places(q, t, tl, n - 1);
        lemma_fuzzy_scan_bounds(q, t, tl, n - 1);
        let qi = fuzzy_scan(q, t, tl, n - 1).0;
        if qi < q.len() && tl[n - 1] == q[qi] {
            let idx = prev.push(n - 1);
            assert forall|k: int| 0 <= k < idx.len() implies 0 <= #[trigger] idx[k] < tl.len() && tl[idx[k]] == q.take(qi + 1)[k] by {
                if k < prev.len() {
                    assert(idx[k] == prev[k]);
                    assert(q.take(qi)[k] == q.take(qi + 1)[k]);
                }
            }
            idx
        } else {
            prev
        }
    }
}

/// No placement of the first `m` query bytes before `n` beats the scan:
/// it matches at least `m` of them.
proof fn lemma_scan_is_greedy(q: Seq<u8>, t: Seq<u8>, tl: Seq<u8>, n: int, m: int, idx: Seq<int>)
    requires
        0 <= n <= tl.len(),
        0 <= m <= q.len(),
        placed_in(q.take(m), tl, idx),
        forall|k: int| 0 <= k < idx.len() ==> #[trigger] idx[k] < n,
    ensures
        fuzzy_scan(q, t, tl, n).0 >= m,
    decreases n,
{
    lemma_fuzzy_scan_bounds(q, t, tl, n);
    if m > 0 {
        let last = idx[m - 1];
        assert(last < n);
        if n > 0 {
            lemma_fuzzy_scan_bounds(q, t, tl, n - 1);
            if last < n - 1 {
                assert forall|k: int| 0 <= k < idx.len() implies #[trigger] idx[k] < n - 1 by {
                    if k < m - 1 {
                        assert(idx[k] < idx[m - 1]);
                    }
                }
                lemma_scan_is_greedy(q, t, tl, n - 1, m, idx);
            } else {
                let rest = idx.take(m - 1);
                assert forall|k: int| 0 <= k < rest.len() implies #[trigger] rest[k] < n - 1 by {
                    assert(rest[k] == idx[k]);
                    assert(idx[k] < idx[m - 1]);
                }
                assert forall|k: int| 0 <= k < rest.len() implies 0 <= #[trigger] rest[k] < tl.len() && tl[rest[k]]
                    == q.take(m - 1)[k] by {
                    assert(rest[k] == idx[k]);
                    assert(q.take(m)[k] == q.take(m - 1)[k]);
                }
                assert forall|a: int, b: int| 0 <= a < b < rest.len() implies #[trigger] rest[a] < #[trigger] rest[b] by {
                    assert(rest[a] == idx[a] && rest[b] == idx[b]);
                }
                lemma_scan_is_greedy(q, t, tl, n - 1, m - 1, rest);
                assert(tl[n - 1] == q.take(m)[m - 1]);
            }
        }
    }
}

/// The fuzzy match exists exactly when the query is not empty and its
/// bytes occur, in order, among the lower-cased name's bytes, when those
/// are no more than the name's. (When lower-casing lengthens the name, a
/// query longer than the name itself has no match even if it occurs in
/// the lower-cased bytes.)
pub proof fn lemma_fuzzy_match_is_subsequence(q: Seq<u8>, t: Seq<u8>, tl: Seq<u8>)
    requires
        tl.len() <= t.len(),
    ensures
        spec_fuzzy_core(q, t, tl) is Some <==> (q.len() > 0 && is_subsequence(q, tl)),
{
    let n = tl.len() as int;
    lemma_fuzzy_scan_bounds(q, t, tl, n);
    let qi = fuzzy_scan(q, t, tl, n).0;
    if spec_fuzzy_core(q, t, tl) is Some {
        let idx = lemma_scan_places(q, t, tl, n);
        assert(q.take(qi) == q);
        assert(placed_in(q, tl, idx));
    }
    if q.len() > 0 && is_subsequence(q, tl) {
        let idx = choose|idx: Seq<int>| #[trigger] placed_in(q, tl, idx);
        assert(q.take(q.len() as int) == q);
        lemma_scan_is_greedy(q, t, tl, n, q.len() as int, idx);
    }
}

/// The scan matches a query byte at position `n` of the lower-cased name.
pub open spec fn matches_at(q: Seq<u8>, t: Seq<u8>, tl: Seq<u8>, n: int) -> bool {
    let qi = fuzzy_scan(q, t, tl, n).0;
    qi < q.len() && tl[n] == q[qi]
}

/// The scan would read past the name: lower-casing made the name longer
/// and a query byte matches beyond the name's own bytes, where the bonus
/// for a case change reads the name's byte at that position (the original
/// code panics there).
pub open spec fn overruns(q: Seq<u8>, t: Seq<u8>, tl: Seq<u8>) -> bool {
    &&& 0 < q.len() <= t.len()
    &&& exists|n: int| t.len() <= n < tl.len() && #[trigger] matches_at(q, t, tl, n)
}

proof fn lemma_scan_camel(q: Seq<u8>, t: Seq<u8>, tl: Seq<u8>, k: int, n: int)
    requires
        tl.len() <= t.len(),
        0 < k < tl.len(),
        is_upper_byte(t[k]),
        is_lower_byte(t[k - 1]),
        k + 1 < t.len() ==> !is_upper_byte(t[k + 1]),
        0 <= n <= tl.len(),
    ensures
        ({
            let t2 = t.update(k, (t[k] + 32) as u8);
            let s1 = fuzzy_scan(q, t, tl, n);
            let s2 = fuzzy_scan(q, t2, tl, n);
            &&& s1.0 == s2.0
            &&& s1.2 == s2.2
            &&& s1.3 == s2.3
            &&& s1.1 == s2.1 + (if k < n && matches_at(q, t, tl, k) {
                20int
            } else {
                0
            })
        }),
    decreases n,
{
    let t2 = t.update(k, (t[k] + 32) as u8);
    if n > 0 {
        lemma_scan_camel(q, t, tl, k, n - 1);
        let ti = n - 1;
        let s1 = fuzzy_scan(q, t, tl, ti);
        let s2 = fuzzy_scan(q, t2, tl, ti);
        if s1.0 < q.len() && tl[ti] == q[s1.0] {
            assert(t2[k] == (t[k] + 32) as u8);
            assert(is_lower_byte(t2[k]));
            if ti == k {
                assert(t2[k - 1] == t[k - 1]);
                assert(match_points(t, ti, s1.2) == match_points(t2, ti, s2.2) + 20);
                assert(matches_at(q, t, tl, k));
            } else if ti == k + 1 {
                assert(t2[ti] == t[ti]);
                assert(match_points(t, ti, s1.2) == match_points(t2, ti, s2.2));
            } else {
                assert(t2[ti] == t[ti]);
                if ti > 0 {
                    assert(t2[ti - 1] == t[ti - 1]);
                }
                assert(match_points(t, ti, s1.2) == match_points(t2, ti, s2.2));
            }
        } else if ti == k {
            assert(!matches_at(q, t, tl, k));
        }
    }
}

/// The camel-case bonus: a matched name byte that is an ASCII capital
/// right after an ASCII small letter earns 20 points more than the same
/// match with that byte in small letters, all else alike (and with the
/// next byte no capital, whose own bonus would change too). The match
/// itself and its first position are the same either way.
pub proof fn lemma_camel_case_bonus(q: Seq<u8>, t: Seq<u8>, tl: Seq<u8>, k: int)
    requires
        tl.len() <= t.len(),
        0 < k < tl.len(),
        is_upper_byte(t[k]),
        is_lower_byte(t[k - 1]),
        k + 1 < t.len() ==> !is_upper_byte(t[k + 1]),
    ensures
        ({
            let t2 = t.update(k, (t[k] + 32) as u8);
            &&& (spec_fuzzy_core(q, t, tl) is Some <==> spec_fuzzy_core(q, t2, tl) is Some)
            &&& spec_fuzzy_core(q, t, tl) matches Some((r, f)) ==> spec_fuzzy_core(q, t2, tl) == Some((
                r - (if matches_at(q, t, tl, k) {
                    20int
                } else {
                    0
                }),
                f,
            ))
        }),
{
    lemma_scan_camel(q, t, tl, k, tl.len() as int);
}

/// The integer core of the fuzzy match (see `spec_fuzzy_core`), where the
/// scan does not read past the name.
pub fn fuzzy_core(q: &[u8], t: &[u8], tl: &[u8]) -> (r: Option<(i64, usize)>)
    requires
        !overruns(q@, t@, tl@),
        t@.len() <= 1000000000,
    ensures
        match spec_fuzzy_core(q@, t@, tl@) {
            Some((raw, f)) => r == Some((raw as i64, f as usize)),
            None => r is None,
        },
{
    if q.len() == 0 || q.len() > t.len() {
        return None;
    }
    let mut qi: usize = 0;
    let mut pts: i64 = 0;
    let mut prev = false;
    let mut first: Option<usize> = None;
    let mut ti: usize = 0;
    while ti < tl.len()
        invariant
            ti <= tl@.len(),
            t@.len() <= 1000000000,
            0 < q@.len() <= t@.len(),
            !overruns(q@, t@, tl@),
            fuzzy_scan(q@, t@, tl@, ti as int) == (qi as int, pts as int, prev, match first {
                Some(f) => Some(f as int),
                None => None,
            }),
        decreases tl.len() - ti,
    {
        proof {
            lemma_fuzzy_scan_bounds(q@, t@, tl@, ti as int);
        }
        if qi < q.len() && tl[ti] == q[qi] {
            assert(matches_at(q@, t@, tl@, ti as int));
            assert(ti < t@.len());
            let mut p: i64 = 10;
            if prev {
                p += 15;
            }
            if ti == 0 || t[ti - 1] == 0x20 || t[ti - 1] == 0x2D || t[ti - 1] == 0x5F || t[ti - 1] == 0x2F
                || t[ti - 1] == 0x5C {
                p += 30;
            }
            if ti > 0 && 0x41 <= t[ti] && t[ti] <= 0x5A && 0x61 <= t[ti - 1] && t[ti - 1] <= 0x7A {
                p += 20;
            }
            if ti > 0 && !((0x30 <= t[ti - 1] && t[ti - 1] <= 0x39) || (0x41 <= t[ti - 1] && t[ti - 1]
                <= 0x5A) || (0x61 <= t[ti - 1] && t[ti - 1] <= 0x7A)) {
                p += 15;
            }
            assert(p == match_points(t@, ti as int, prev));
            qi += 1;
            pts = pts + p;
            prev = true;
            if first.is_none() {
                first = Some(ti);
            }
        } else {
            prev = false;
        }
        ti += 1;
    }
    proof {
        lemma_fuzzy_scan_bounds(q@, t@, tl@, ti as int);
    }
    if qi != q.len() {
        return None;
    }
    match first {
        Some(f) => Some((pts - 2 * ((t.len() - qi) as i64), f)),
        None => None,
    }
}

/// The name bytes, lower-cased name bytes and lower-cased query bytes the
/// fuzzy match compares.
pub open spec fn fuzzy_bytes(query: Seq<char>, name: Seq<char>) -> (Seq<u8>, Seq<u8>, Seq<u8>) {
    (
        vstd::utf8::encode_utf8(text::unicode_lower(query)),
        vstd::utf8::encode_utf8(name),
        vstd::utf8::encode_utf8(text::unicode_lower(name)),
    )
}

/// Whether matching `query` against `name` would read past the name (see
/// `overruns`); `fuzzy_parts` is defined exactly where this is false.
pub fn fuzzy_overruns(query: &str, name: &str) -> (b: bool)
    ensures
        b == overruns(fuzzy_bytes(query@, name@).0, fuzzy_bytes(query@, name@).1, fuzzy_bytes(query@, name@).2),
{
    let ql = text::to_lowercase(query);
    let tl = text::to_lowercase(name);
    let q = ql.as_str().as_bytes();
    let t = name.as_bytes();
    let tlb = tl.as_str().as_bytes();
    assert(fuzzy_bytes(query@, name@).0 == q@);
    assert(fuzzy_bytes(query@, name@).1 == t@);
    assert(fuzzy_bytes(query@, name@).2 == tlb@);
    if q.len() == 0 || q.len() > t.len() {
        return false;
    }
    let mut qi: usize = 0;
    let mut ti: usize = 0;
    while ti < tlb.len()
        invariant
            ti <= tlb@.len(),
            0 < q@.len() <= t@.len(),
            qi as int == fuzzy_scan(q@, t@, tlb@, ti as int).0,
            forall|n: int| t@.len() <= n < ti ==> !#[trigger] matches_at(q@, t@, tlb@, n),
            fuzzy_bytes(query@, name@).0 == q@,
            fuzzy_bytes(query@, name@).1 == t@,
            fuzzy_bytes(query@, name@).2 == tlb@,
        decreases tlb.len() - ti,
    {
        proof {
            lemma_fuzzy_scan_bounds(q@, t@, tlb@, ti as int);
        }
        if qi < q.len() && tlb[ti] == q[qi] {
            assert(matches_at(q@, t@, tlb@, ti as int));
            if ti >= t.len() {
                assert(overruns(q@, t@, tlb@));
                return true;
            }
            qi += 1;
        } else {
            assert(!matches_at(q@, t@, tlb@, ti as int));
        }
        ti += 1;
    }
    false
}

/// The fuzzy match of `query` against an app `name`, on their UTF-8 bytes
/// (both lower-cased for the comparison; the name's own bytes decide the
/// word and case bonuses). Defined where the scan does not read past the
/// name (see `fuzzy_overruns`).
pub fn fuzzy_parts(query: &str, name: &str) -> (r: Option<FuzzyParts>)
    requires
        vstd::utf8::encode_utf8(name@).len() <= 1000000000,
        !overruns(fuzzy_bytes(query@, name@).0, fuzzy_bytes(query@, name@).1, fuzzy_bytes(query@, name@).2),
    ensures
        ({
            let q = fuzzy_bytes(query@, name@).0;
            let t = fuzzy_bytes(query@, name@).1;
            let tl = fuzzy_bytes(query@, name@).2;
            match spec_fuzzy_core(q, t, tl) {
                Some((raw, f)) => r matches Some(p) && p.raw == raw && p.first == f && p.name_len == t.len()
                    && p.query_len == q.len(),
                None => r is None,
            }
        }),
{
    let ql = text::to_lowercase(query);
    let tl = text::to_lowercase(name);
    let qb = ql.as_str().as_bytes();
    let tb = name.as_bytes();
    let tlb = tl.as_str().as_bytes();
    assert(fuzzy_bytes(query@, name@).0 == qb@);
    assert(fuzzy_bytes(query@, name@).1 == tb@);
    assert(fuzzy_bytes(query@, name@).2 == tlb@);
    proof {
        lemma_fuzzy_scan_bounds(qb@, tb@, tlb@, tlb@.len() as int);
    }
    let core = fuzzy_core(qb, tb, tlb);
    match core {
        Some((raw, first)) => {
            let p = FuzzyParts { raw, first, name_len: tb.len(), query_len: qb.len() };
            let ghost sc = spec_fuzzy_core(qb@, tb@, tlb@);
            assert(sc is Some);
            let tl_len = tlb.len();
            let ghost pair = sc->0;
            assert(p.raw as int == pair.0);
            assert(p.first as int == pair.1);
            Some(p)
        },
        None => None,
    }
}

} // verus!
