//! Clipboard history: `clip …` or `cbhist` lists past clipboard entries.
//!
//! Query grammar (words after the trigger word):
//!   `<text…>`     entries containing the text
//!   `today`, `yesterday`, `YYYY-MM-DD`, `lastNd`   a date window
//!   `sort:new`, `sort:old`   newest or oldest first, over the default order
//!
//! `plan` reads the query; the caller loads the matching entries and hands
//! them to `results`, which builds the rows and orders them: pinned first,
//! then by capture order.
use vstd::prelude::*;
use crate::text;
use super::{plain_result, RowView, SearchResult};

verus! {

/// The provider, holding the default order (changed from the settings).
pub struct ClipboardProvider {
    pub newest_first: bool,
}

/// Change the default clipboard history order.
pub fn set_newest_first(provider: &mut ClipboardProvider, newest: bool)
    ensures
        final(provider).newest_first == newest,
{
    provider.newest_first = newest;
}

/// Bytes as the characters of the same codes.
pub open spec fn bytes_as_chars(b: Seq<u8>) -> Seq<char> {
    b.map_values(|x: u8| (x as u32) as char)
}

/// `YYYY-MM-DD` in shape: ten bytes, dashes at 4 and 7, and the three parts
/// parse as numbers of 16, 8 and 8 bits.
pub open spec fn spec_is_iso_date(word: Seq<char>) -> bool {
    let b = vstd::utf8::encode_utf8(word);
    &&& b.len() == 10
    &&& b[4] == 0x2Du8
    &&& b[7] == 0x2Du8
    &&& text::parse_unsigned(bytes_as_chars(b.subrange(0, 4)), u16::MAX as nat) is Some
    &&& text::parse_unsigned(bytes_as_chars(b.subrange(5, 7)), u8::MAX as nat) is Some
    &&& text::parse_unsigned(bytes_as_chars(b.subrange(8, 10)), u8::MAX as nat) is Some
}

fn byte_chars(b: &[u8]) -> (v: Vec<char>)
    ensures
        v@ == bytes_as_chars(b@),
{
    let mut v: Vec<char> = Vec::new();
    let mut i: usize = 0;
    while i < b.len()
        invariant
            i <= b@.len(),
            v@ == bytes_as_chars(b@.take(i as int)),
        decreases b.len() - i,
    {
        v.push(b[i] as char);
        i += 1;
        assert(bytes_as_chars(b@.take(i as int)) == bytes_as_chars(b@.take(i - 1)).push(
            (b@[i - 1] as u32) as char,
        ));
    }
    assert(b@.take(b@.len() as int) == b@);
    v
}

/// `YYYY-MM-DD`: a shape check, no calendar.
pub fn is_iso_date(word: &str) -> (r: bool)
    ensures
        r == spec_is_iso_date(word@),
{
    let b = word.as_bytes();
    if b.len() != 10 || b[4] != 0x2D || b[7] != 0x2D {
        return false;
    }
    let v = byte_chars(b);
    proof {
        assert(v@.subrange(0, 4) == bytes_as_chars(b@.subrange(0, 4)));
        assert(v@.subrange(5, 7) == bytes_as_chars(b@.subrange(5, 7)));
        assert(v@.subrange(8, 10) == bytes_as_chars(b@.subrange(8, 10)));
    }
    text::parse_unsigned_exec(&v, 0, 4, u16::MAX as u64).is_some()
        && text::parse_unsigned_exec(&v, 5, 7, u8::MAX as u64).is_some()
        && text::parse_unsigned_exec(&v, 8, 10, u8::MAX as u64).is_some()
}

/// `lastNd` with `N` a positive 64-bit number: `N`; anything else: none.
pub open spec fn spec_parse_last_days(word: Seq<char>) -> Option<nat> {
    if text::starts_with(word, "last"@) && word.len() >= 5 && word.last() == 'd' {
        match text::parse_unsigned(word.subrange(4, word.len() - 1), i64::MAX as nat) {
            Some(n) => if n > 0 {
                Some(n)
            } else {
                None
            },
            None => None,
        }
    } else {
        None
    }
}

/// `last7d` / `last30d` → the number of days; anything else → `None`.
pub fn parse_last_days(word: &str) -> (r: Option<i64>)
    ensures
        match spec_parse_last_days(word@) {
            Some(n) => r == Some(n as i64),
            None => r is None,
        },
{
    let v = text::chars_of(word);
    proof {
        reveal_strlit("last");
    }
    assert(v@.skip(0) == v@);
    if !text::starts_with_at(&v, 0, "last") || v.len() < 5 || v[v.len() - 1] != 'd' {
        return None;
    }
    match text::parse_unsigned_exec(&v, 4, v.len() - 1, i64::MAX as u64) {
        Some(n) => if n > 0 {
            Some(n as i64)
        } else {
            None
        },
        None => None,
    }
}

/// The date window a query asks for.
#[derive(Debug)]
pub enum DateFilter {
    Today,
    Yesterday,
    /// Exactly this `YYYY-MM-DD`.
    Exact(String),
    /// The last `N` days, today included.
    LastDays(i64),
}

/// A date filter, as values.
pub enum DateSpec {
    Today,
    Yesterday,
    Exact(Seq<char>),
    LastDays(int),
}

pub open spec fn date_view(d: Option<DateFilter>) -> Option<DateSpec> {
    match d {
        None => None,
        Some(DateFilter::Today) => Some(DateSpec::Today),
        Some(DateFilter::Yesterday) => Some(DateSpec::Yesterday),
        Some(DateFilter::Exact(s)) => Some(DateSpec::Exact(s@)),
        Some(DateFilter::LastDays(n)) => Some(DateSpec::LastDays(n as int)),
    }
}

/// What a query asks of the history.
pub struct ClipQuery {
    /// At most this many entries of each kind.
    pub limit: usize,
    pub newest_first: bool,
    /// Only entries containing this text.
    pub text_like: Option<String>,
    pub date: Option<DateFilter>,
}

/// Reading state: the order, the date window, the text words so far.
pub type PlanState = (bool, Option<DateSpec>, Seq<Seq<char>>);

/// One query word applied to the reading state: the lower-cased word picks
/// the order or the date window; any other word is kept (as typed) for the
/// text filter.
pub open spec fn apply_word(st: PlanState, word: Seq<char>) -> PlanState {
    let lower = text::unicode_lower(word);
    if lower == "sort:new"@ {
        (true, st.1, st.2)
    } else if lower == "sort:old"@ {
        (false, st.1, st.2)
    } else if lower == "today"@ {
        (st.0, Some(DateSpec::Today), st.2)
    } else if lower == "yesterday"@ {
        (st.0, Some(DateSpec::Yesterday), st.2)
    } else if spec_is_iso_date(lower) {
        (st.0, Some(DateSpec::Exact(lower)), st.2)
    } else if let Some(n) = spec_parse_last_days(lower) {
        (st.0, Some(DateSpec::LastDays(n as int)), st.2)
    } else {
        (st.0, st.1, st.2.push(word))
    }
}

/// The words from `i` on applied in turn.
pub open spec fn apply_words(st: PlanState, ws: Seq<Seq<char>>, i: int) -> PlanState
    decreases ws.len() - i,
{
    if i >= ws.len() || i < 0 {
        st
    } else {
        apply_words(apply_word(st, ws[i]), ws, i + 1)
    }
}

/// The words joined with single spaces.
pub open spec fn join_spaces(ws: Seq<Seq<char>>) -> Seq<char>
    decreases ws.len(),
{
    if ws.len() == 0 {
        Seq::empty()
    } else if ws.len() == 1 {
        ws[0]
    } else {
        join_spaces(ws.drop_last()) + " "@ + ws.last()
    }
}

/// The reading of `query` (all words but the first), starting from the
/// default order.
pub open spec fn spec_plan(query: Seq<char>, newest_default: bool) -> PlanState {
    apply_words((newest_default, None, Seq::empty()), text::words(query), 1)
}

impl ClipboardProvider {
    /// Runs on `cbhist`, or on anything starting with `clip`, after trimming
    /// and lower-casing.
    pub fn should_run(&self, query: &str) -> (b: bool)
        ensures
            b == ({
                let q = text::unicode_lower(text::trim(query@));
                q == "cbhist"@ || text::starts_with(q, "clip"@)
            }),
    {
        let v = text::chars_of(query);
        let t = text::trim_chars(&v);
        let q = text::lower_unicode_chars(&t);
        assert(q@.skip(0) == q@);
        text::eq_str(&q, "cbhist") || text::starts_with_at(&q, 0, "clip")
    }

    /// What `query` asks of the history: at most `max(max_entries, 1)`
    /// entries of each kind, the order, the text filter (the kept words
    /// joined by spaces, none when there are none) and the date window.
    pub fn plan(&self, query: &str, max_entries: u32) -> (r: ClipQuery)
        ensures
            r.limit == (if max_entries > 1 {
                max_entries as int
            } else {
                1int
            }),
            r.newest_first == spec_plan(query@, self.newest_first).0,
            date_view(r.date) == spec_plan(query@, self.newest_first).1,
            spec_plan(query@, self.newest_first).2.len() == 0 ==> r.text_like is None,
            spec_plan(query@, self.newest_first).2.len() > 0 ==> (r.text_like matches Some(t) && t@
                == join_spaces(spec_plan(query@, self.newest_first).2)),
    {
        let ws = text::split_whitespace(query);
        let mut newest = self.newest_first;
        let mut date: Option<DateFilter> = None;
        let mut kept: Vec<String> = Vec::new();
        let mut i: usize = 1;
        proof {
            assert(text::string_views(kept@) == Seq::<Seq<char>>::empty());
            reveal_strlit("sort:new");
            reveal_strlit("sort:old");
        }
        while i < ws.len()
            invariant
                1 <= i,
                i <= ws@.len() || ws@.len() == 0,
                text::string_views(ws@) == text::words(query@),
                apply_words((newest, date_view(date), text::string_views(kept@)), text::string_views(ws@), i as int)
                    == spec_plan(query@, self.newest_first),
            decreases ws.len() - i,
        {
            let w = &ws[i];
            let lower = text::to_lowercase(w.as_str());
            let lv = text::chars_of(lower.as_str());
            assert(text::string_views(ws@)[i as int] == w@);
            if text::eq_str(&lv, "sort:new") {
                newest = true;
            } else if text::eq_str(&lv, "sort:old") {
                newest = false;
            } else if text::eq_str(&lv, "today") {
                date = Some(DateFilter::Today);
            } else if text::eq_str(&lv, "yesterday") {
                date = Some(DateFilter::Yesterday);
            } else if is_iso_date(lower.as_str()) {
                date = Some(DateFilter::Exact(lower));
            } else {
                match parse_last_days(lower.as_str()) {
                    Some(n) => {
                        date = Some(DateFilter::LastDays(n));
                    },
                    None => {
                        let ghost before = kept@;
                        kept.push(w.clone());
                        assert(text::string_views(kept@) == text::string_views(before).push(w@));
                    },
                }
            }
            i += 1;
        }
        let text_like = if kept.len() == 0 {
            None
        } else {
            Some(join_with_spaces(&kept))
        };
        let limit: usize = if max_entries > 1 {
            max_entries as usize
        } else {
            1
        };
        ClipQuery { limit, newest_first: newest, text_like, date }
    }
}

/// The strings joined with single spaces.
fn join_with_spaces(v: &Vec<String>) -> (s: String)
    ensures
        s@ == join_spaces(text::string_views(v@)),
{
    let mut s = String::new();
    let mut i: usize = 0;
    while i < v.len()
        invariant
            i <= v@.len(),
            s@ == join_spaces(text::string_views(v@.take(i as int))),
        decreases v.len() - i,
    {
        let ghost prev = text::string_views(v@.take(i as int));
        assert(text::string_views(v@.take(i + 1)) == prev.push(v@[i as int]@));
        if i > 0 {
            text::push_char(&mut s, ' ');
            proof {
                reveal_strlit(" ");
                assert(" "@ == seq![' ']);
            }
        }
        text::push_all(&mut s, v[i].as_str());
        proof {
            let next = prev.push(v@[i as int]@);
            assert(next.drop_last() == prev);
            if i == 0 {
                assert(s@ == v@[0]@);
            }
        }
        i += 1;
    }
    assert(v@.take(v@.len() as int) == v@);
    s
}

/// The days of the date window, counted from today (0 today, -1 yesterday),
/// or one exact date.
pub enum DateWindow {
    Days(i64, i64),
    Exact(String),
}

/// The window a date filter asks for: today, yesterday, the exact date, or
/// the last `N` days up to today.
pub fn date_window(d: &DateFilter) -> (w: DateWindow)
    requires
        d matches DateFilter::LastDays(n) ==> n > i64::MIN,
    ensures
        match *d {
            DateFilter::Today => w matches DateWindow::Days(a, b) && a == 0 && b == 0,
            DateFilter::Yesterday => w matches DateWindow::Days(a, b) && a == -1 && b == -1,
            DateFilter::Exact(s) => w matches DateWindow::Exact(t) && t@ == s@,
            DateFilter::LastDays(n) => w matches DateWindow::Days(a, b) && a == -(n as int) && b == 0,
        },
{
    match d {
        DateFilter::Today => DateWindow::Days(0, 0),
        DateFilter::Yesterday => DateWindow::Days(-1, -1),
        DateFilter::Exact(s) => DateWindow::Exact(s.clone()),
        DateFilter::LastDays(n) => DateWindow::Days(-*n, 0),
    }
}

/// The SQL `LIKE` pattern for a text filter: the text with `\`, `%` and
/// `_` escaped by `\`, between `%` wildcards.
pub open spec fn spec_like_pattern(t: Seq<char>) -> Seq<char> {
    "%"@ + text::replace_all(
        text::replace_all(text::replace_all(t, "\\"@, "\\\\"@), "%"@, "\\%"@),
        "_"@,
        "\\_"@,
    ) + "%"@
}

/// The SQL `LIKE` pattern for a text filter.
pub fn like_pattern(t: &str) -> (p: String)
    ensures
        p@ == spec_like_pattern(t@),
{
    proof {
        reveal_strlit("\\");
        reveal_strlit("%");
        reveal_strlit("_");
    }
    let a = text::replace_str(t, "\\", "\\\\");
    let b = text::replace_str(a.as_str(), "%", "\\%");
    let c = text::replace_str(b.as_str(), "_", "\\_");
    let mut p = String::new();
    text::push_all(&mut p, "%");
    text::push_all(&mut p, c.as_str());
    text::push_all(&mut p, "%");
    p
}

/// The SQLite date modifier for `days` days from today (`+0 days`,
/// `-7 days`): the sign is always written.
pub open spec fn spec_day_modifier(days: i64) -> Seq<char> {
    (if days < 0 {
        "-"@ + text::decimal((-days) as nat)
    } else {
        "+"@ + text::decimal(days as nat)
    }) + " days"@
}

/// The SQLite date modifier for `days` days from today.
pub fn day_modifier(days: i64) -> (s: String)
    ensures
        s@ == spec_day_modifier(days),
{
    let mut s = String::new();
    if days < 0 {
        text::push_all(&mut s, "-");
        let mag: u64 = if days == i64::MIN {
            9223372036854775808u64
        } else {
            (-days) as u64
        };
        text::push_all(&mut s, text::decimal_string(mag).as_str());
    } else {
        text::push_all(&mut s, "+");
        text::push_all(&mut s, text::decimal_string(days as u64).as_str());
    }
    text::push_all(&mut s, " days");
    s
}

// ---------------------------------------------------------------------------
// Result rows
// ---------------------------------------------------------------------------

/// A text entry of the history.
pub struct ClipText {
    pub text: String,
    /// When it was captured, as shown.
    pub ts: String,
    pub pinned: bool,
    /// Capture order.
    pub id: i64,
}

/// An image entry of the history.
pub struct ClipImage {
    /// The saved full-size image.
    pub path: String,
    pub width: u32,
    pub height: u32,
    pub ts: String,
    pub pinned: bool,
    pub id: i64,
    /// The decoded thumbnail (RGBA, width, height), when there is one.
    pub thumb: Option<(Vec<u8>, u32, u32)>,
}

/// The index of the first `c` in `s` from `i` on.
pub open spec fn find_char(s: Seq<char>, c: char, i: int) -> Option<int>
    decreases s.len() - i,
{
    if i < 0 || i >= s.len() {
        None
    } else if s[i] == c {
        Some(i)
    } else {
        find_char(s, c, i + 1)
    }
}

/// The first line of `t`, as `str::lines` gives it (a `\r` before the
/// first `\n` is dropped); all of `t` when it has no `\n`.
pub open spec fn first_line(t: Seq<char>) -> Seq<char> {
    match find_char(t, '\n', 0) {
        None => t,
        Some(k) => {
            let l = t.take(k);
            if l.len() > 0 && l.last() == '\r' {
                l.drop_last()
            } else {
                l
            }
        },
    }
}

/// At most the first 80 characters of the first line.
pub open spec fn preview(t: Seq<char>) -> Seq<char> {
    let l = first_line(t);
    if l.len() > 80 {
        l.take(80)
    } else {
        l
    }
}

/// The pin mark before a pinned entry's title.
pub open spec fn pin_mark() -> Seq<char> {
    seq!['\u{1f4cc}', ' ']
}

/// `Clipboard · <ts>`, with ` · pinned` for a pinned entry.
pub open spec fn clip_subtitle(ts: Seq<char>, pinned: bool) -> Seq<char> {
    "Clipboard \u{00b7} "@ + ts + (if pinned {
        " \u{00b7} pinned"@
    } else {
        Seq::empty()
    })
}

pub open spec fn text_row(e: ClipText) -> RowView {
    (
        if e.pinned {
            pin_mark() + preview(e.text@)
        } else {
            preview(e.text@)
        },
        clip_subtitle(e.ts@, e.pinned),
        "clipboard"@,
        "clipboard"@,
        e.text@,
        None,
        200,
    )
}

/// `Image · <w>×<h>`.
pub open spec fn image_title(w: u32, h: u32) -> Seq<char> {
    "Image \u{00b7} "@ + text::decimal(w as nat) + "\u{00d7}"@ + text::decimal(h as nat)
}

pub open spec fn image_row(e: ClipImage) -> RowView {
    (
        if e.pinned {
            pin_mark() + image_title(e.width, e.height)
        } else {
            image_title(e.width, e.height)
        },
        clip_subtitle(e.ts@, e.pinned),
        "clipboard-image"@,
        "clipboard"@,
        e.path@,
        match e.thumb {
            Some((px, w, h)) => Some((px@, w, h)),
            None => None,
        },
        200,
    )
}

/// A row with its sort key (pinned, capture order).
pub type Keyed = (bool, i64, RowView);

/// `a` goes strictly before `b`: pinned first, then by capture order (newest
/// or oldest first).
pub open spec fn goes_before(newest_first: bool, a: (bool, i64), b: (bool, i64)) -> bool {
    (a.0 && !b.0) || (a.0 == b.0 && (if newest_first {
        a.1 > b.1
    } else {
        a.1 < b.1
    }))
}

/// `x` inserted into `s` before the first entry it goes before (so after
/// every entry with the same key).
pub open spec fn insert_sorted(s: Seq<Keyed>, x: Keyed, newest_first: bool) -> Seq<Keyed>
    decreases s.len(),
{
    if s.len() == 0 {
        seq![x]
    } else if goes_before(newest_first, (x.0, x.1), (s[0].0, s[0].1)) {
        seq![x] + s
    } else {
        seq![s[0]] + insert_sorted(s.drop_first(), x, newest_first)
    }
}

/// The stable sort of `s` by key.
pub open spec fn sort_rows(s: Seq<Keyed>, newest_first: bool) -> Seq<Keyed>
    decreases s.len(),
{
    if s.len() == 0 {
        s
    } else {
        insert_sorted(sort_rows(s.drop_last(), newest_first), s.last(), newest_first)
    }
}

/// The rows of the text entries, then those of the image entries, each
/// with its key.
pub open spec fn merged_rows(texts: Seq<ClipText>, images: Seq<ClipImage>) -> Seq<Keyed> {
    texts.map_values(|e: ClipText| (e.pinned, e.id, text_row(e))) + images.map_values(
        |e: ClipImage| (e.pinned, e.id, image_row(e)),
    )
}

/// The first position in `s` that `x` goes before (or the end).
pub open spec fn insert_position(s: Seq<Keyed>, key: (bool, i64), newest_first: bool, i: int) -> int
    decreases s.len() - i,
{
    if i < 0 || i >= s.len() {
        s.len() as int
    } else if goes_before(newest_first, key, (s[i].0, s[i].1)) {
        i
    } else {
        insert_position(s, key, newest_first, i + 1)
    }
}

proof fn lemma_insert_position(s: Seq<Keyed>, x: Keyed, newest_first: bool, i: int)
    requires
        0 <= i <= s.len(),
        forall|j: int| 0 <= j < i ==> !goes_before(newest_first, (x.0, x.1), (s[j].0, s[j].1)),
    ensures
        ({
            let p = insert_position(s, (x.0, x.1), newest_first, i);
            &&& i <= p <= s.len()
            &&& insert_sorted(s, x, newest_first) == s.take(p) + seq![x] + s.skip(p)
        }),
    decreases s.len() - i,
{
    let p = insert_position(s, (x.0, x.1), newest_first, i);
    if i < s.len() && !goes_before(newest_first, (x.0, x.1), (s[i].0, s[i].1)) {
        lemma_insert_position(s, x, newest_first, i + 1);
    } else {
        lemma_insert_prefix(s, x, newest_first, i);
    }
}

/// When `x` goes before nothing in `s[..i]` but before `s[i]` (or `i` is
/// the end), inserting puts it at `i`.
proof fn lemma_insert_prefix(s: Seq<Keyed>, x: Keyed, newest_first: bool, i: int)
    requires
        0 <= i <= s.len(),
        forall|j: int| 0 <= j < i ==> !goes_before(newest_first, (x.0, x.1), (s[j].0, s[j].1)),
        i < s.len() ==> goes_before(newest_first, (x.0, x.1), (s[i].0, s[i].1)),
    ensures
        insert_sorted(s, x, newest_first) == s.take(i) + seq![x] + s.skip(i),
    decreases s.len(),
{
    if s.len() == 0 {
        assert(s.take(i) + seq![x] + s.skip(i) == seq![x]);
    } else if i == 0 {
        assert(s.take(0) + seq![x] + s.skip(0) == seq![x] + s);
    } else {
        let t = s.drop_first();
        assert forall|j: int| 0 <= j < i - 1 implies !goes_before(newest_first, (x.0, x.1), (t[j].0, t[j].1)) by {
            assert(t[j] == s[j + 1]);
        }
        if i - 1 < t.len() {
            assert(t[i - 1] == s[i]);
        }
        lemma_insert_prefix(t, x, newest_first, i - 1);
        assert(seq![s[0]] + (t.take(i - 1) + seq![x] + t.skip(i - 1)) == s.take(i) + seq![x] + s.skip(i));
    }
}

/// No row goes before an earlier one.
pub open spec fn rows_in_order(s: Seq<Keyed>, newest_first: bool) -> bool {
    forall|i: int, j: int|
        0 <= i < j < s.len() ==> !goes_before(newest_first, (#[trigger] s[j].0, s[j].1), (#[trigger] s[i].0, s[i].1))
}

proof fn lemma_insert_keeps_order(s: Seq<Keyed>, x: Keyed, newest_first: bool)
    requires
        rows_in_order(s, newest_first),
    ensures
        rows_in_order(insert_sorted(s, x, newest_first), newest_first),
        insert_sorted(s, x, newest_first).len() == s.len() + 1,
{
    lemma_insert_position(s, x, newest_first, 0);
    let p = insert_position(s, (x.0, x.1), newest_first, 0);
    lemma_insert_position_first(s, (x.0, x.1), newest_first, 0);
    let r = s.take(p) + seq![x] + s.skip(p);
    assert forall|i: int, j: int| 0 <= i < j < r.len() implies !goes_before(
        newest_first,
        (#[trigger] r[j].0, r[j].1),
        (#[trigger] r[i].0, r[i].1),
    ) by {
        if j < p {
            assert(r[i] == s[i] && r[j] == s[j]);
        } else if j == p {
            assert(r[i] == s[i]);
        } else if i == p {
            assert(r[j] == s[j - 1]);
            assert(goes_before(newest_first, (x.0, x.1), (s[p].0, s[p].1)));
            if p < j - 1 {
                assert(!goes_before(newest_first, (s[j - 1].0, s[j - 1].1), (s[p].0, s[p].1)));
            }
        } else if i < p {
            assert(r[i] == s[i] && r[j] == s[j - 1]);
        } else {
            assert(r[i] == s[i - 1] && r[j] == s[j - 1]);
        }
    }
}

proof fn lemma_insert_position_first(s: Seq<Keyed>, key: (bool, i64), newest_first: bool, i: int)
    requires
        0 <= i <= s.len(),
    ensures
        ({
            let p = insert_position(s, key, newest_first, i);
            &&& i <= p <= s.len()
            &&& forall|j: int| i <= j < p ==> !goes_before(newest_first, key, (s[j].0, s[j].1))
            &&& p < s.len() ==> goes_before(newest_first, key, (s[p].0, s[p].1))
        }),
    decreases s.len() - i,
{
    if i < s.len() && !goes_before(newest_first, key, (s[i].0, s[i].1)) {
        lemma_insert_position_first(s, key, newest_first, i + 1);
    }
}

/// The rows come out in order: no row goes before an earlier one, so every
/// pinned row comes before every unpinned one, and rows with the same pin
/// state follow the capture order asked for.
pub proof fn lemma_rows_sorted(s: Seq<Keyed>, newest_first: bool)
    ensures
        rows_in_order(sort_rows(s, newest_first), newest_first),
        sort_rows(s, newest_first).len() == s.len(),
    decreases s.len(),
{
    if s.len() > 0 {
        lemma_rows_sorted(s.drop_last(), newest_first);
        lemma_insert_keeps_order(sort_rows(s.drop_last(), newest_first), s.last(), newest_first);
    }
}

/// Position for `key` among `keys`.
fn find_insert_position(keys: &Vec<(bool, i64)>, key: (bool, i64), newest_first: bool) -> (p: usize)
    ensures
        p <= keys@.len(),
        forall|j: int| 0 <= j < p ==> !goes_before(newest_first, key, keys@[j]),
        p < keys@.len() ==> goes_before(newest_first, key, keys@[p as int]),
{
    let mut i: usize = 0;
    while i < keys.len()
        invariant
            i <= keys@.len(),
            forall|j: int| 0 <= j < i ==> !goes_before(newest_first, key, keys@[j]),
        decreases keys.len() - i,
    {
        let k = keys[i];
        let before = (key.0 && !k.0) || (key.0 == k.0 && (if newest_first {
            key.1 > k.1
        } else {
            key.1 < k.1
        }));
        if before {
            return i;
        }
        i += 1;
    }
    i
}

/// The rows so far, sorted: keys and rows side by side.
pub open spec fn zipped(keys: Seq<(bool, i64)>, rows: Seq<SearchResult>) -> Seq<Keyed> {
    Seq::new(keys.len(), |j: int| (keys[j].0, keys[j].1, super::row_view(rows[j])))
}

/// Insert a row with its key into the sorted rows.
fn insert_row(
    keys: &mut Vec<(bool, i64)>,
    rows: &mut Vec<SearchResult>,
    key: (bool, i64),
    row: SearchResult,
    newest_first: bool,
)
    requires
        old(keys)@.len() == old(rows)@.len(),
    ensures
        final(keys)@.len() == final(rows)@.len(),
        zipped(final(keys)@, final(rows)@) == insert_sorted(
            zipped(old(keys)@, old(rows)@),
            (key.0, key.1, super::row_view(row)),
            newest_first,
        ),
{
    let ghost z = zipped(keys@, rows@);
    let ghost x = (key.0, key.1, super::row_view(row));
    let p = find_insert_position(keys, key, newest_first);
    proof {
        assert forall|j: int| 0 <= j < p implies !goes_before(newest_first, (x.0, x.1), (z[j].0, z[j].1)) by {
            assert(z[j].0 == keys@[j].0 && z[j].1 == keys@[j].1);
        }
        if p < z.len() {
            assert(z[p as int].0 == keys@[p as int].0 && z[p as int].1 == keys@[p as int].1);
        }
        lemma_insert_prefix(z, x, newest_first, p as int);
    }
    keys.insert(p, key);
    rows.insert(p, row);
    assert(zipped(keys@, rows@) == z.take(p as int) + seq![x] + z.skip(p as int));
}

/// A text entry's row.
pub fn text_result(e: &ClipText) -> (r: SearchResult)
    ensures
        super::row_view(r) == text_row(*e),
{
    let v = text::chars_of(e.text.as_str());
    let mut k: usize = 0;
    while k < v.len() && v[k] != '\n'
        invariant
            k <= v@.len(),
            v@ == e.text@,
            find_char(v@, '\n', k as int) == find_char(v@, '\n', 0),
        decreases v.len() - k,
    {
        k += 1;
    }
    let mut end = k;
    if k < v.len() && k > 0 && v[k - 1] == '\r' {
        end = k - 1;
    }
    let shown = if end > 80 {
        80
    } else {
        end
    };
    proof {
        let t = v@;
        if k == v.len() {
            assert(first_line(t) == t.take(k as int));
        }
    }
    let mut title = String::new();
    if e.pinned {
        text::push_char(&mut title, '\u{1f4cc}');
        text::push_char(&mut title, ' ');
    }
    let p = text::string_of(&v, 0, shown);
    text::push_all(&mut title, p.as_str());
    proof {
        let l = first_line(v@);
        assert(l == v@.take(end as int));
        assert(preview(v@) == v@.subrange(0, shown as int));
        if e.pinned {
            assert(title@ == pin_mark() + preview(e.text@));
        } else {
            assert(title@ == preview(e.text@));
        }
    }
    let subtitle = clip_subtitle_string(e.ts.as_str(), e.pinned);
    plain_result(title, subtitle, "clipboard", "clipboard", e.text.clone(), 200)
}

fn clip_subtitle_string(ts: &str, pinned: bool) -> (s: String)
    ensures
        s@ == clip_subtitle(ts@, pinned),
{
    let mut s = String::new();
    text::push_all(&mut s, "Clipboard \u{00b7} ");
    text::push_all(&mut s, ts);
    if pinned {
        text::push_all(&mut s, " \u{00b7} pinned");
    }
    s
}

/// An image entry's row (the thumbnail moves into the row's icon).
pub fn image_result(e: ClipImage) -> (r: SearchResult)
    ensures
        super::row_view(r) == image_row(e),
{
    let mut title = String::new();
    if e.pinned {
        text::push_char(&mut title, '\u{1f4cc}');
        text::push_char(&mut title, ' ');
    }
    let ghost before = title@;
    text::push_all(&mut title, "Image \u{00b7} ");
    text::push_all(&mut title, text::decimal_string(e.width as u64).as_str());
    text::push_all(&mut title, "\u{00d7}");
    text::push_all(&mut title, text::decimal_string(e.height as u64).as_str());
    proof {
        assert(title@ == before + image_title(e.width, e.height));
        if e.pinned {
            assert(before == pin_mark());
        } else {
            assert(before == Seq::<char>::empty());
        }
    }
    let subtitle = clip_subtitle_string(e.ts.as_str(), e.pinned);
    SearchResult {
        title,
        subtitle,
        kind: "clipboard-image".to_owned(),
        provider_id: "clipboard".to_owned(),
        action: e.path,
        icon_rgba: e.thumb,
        score: 200,
    }
}

impl ClipboardProvider {
    /// The rows for the loaded entries: text rows then image rows, stably
    /// sorted with pinned entries first, then by capture order (newest or
    /// oldest first, as the query's plan says).
    pub fn results(&self, texts: Vec<ClipText>, images: Vec<ClipImage>, newest_first: bool) -> (r: Vec<SearchResult>)
        ensures
            r@.map_values(|x: SearchResult| super::row_view(x)) == sort_rows(merged_rows(texts@, images@), newest_first).map_values(
                |k: Keyed| k.2,
            ),
    {
        let ghost all = merged_rows(texts@, images@);
        let ghost nt = texts@.len();
        let mut keys: Vec<(bool, i64)> = Vec::new();
        let mut rows: Vec<SearchResult> = Vec::new();
        let mut i: usize = 0;
        assert(zipped(keys@, rows@) == sort_rows(all.take(0), newest_first));
        while i < texts.len()
            invariant
                i <= texts@.len(),
                nt == texts@.len(),
                all == merged_rows(texts@, images@),
                keys@.len() == rows@.len(),
                zipped(keys@, rows@) == sort_rows(all.take(i as int), newest_first),
            decreases texts.len() - i,
        {
            let e = &texts[i];
            let row = text_result(e);
            insert_row(&mut keys, &mut rows, (e.pinned, e.id), row, newest_first);
            proof {
                assert(all.take(i + 1).drop_last() == all.take(i as int));
                assert(all.take(i + 1).last() == all[i as int]);
            }
            i += 1;
        }
        let mut images = images;
        let total = images.len();
        let ghost imgs = images@;
        let mut j: usize = 0;
        while images.len() > 0
            invariant
                j + images@.len() == imgs.len(),
                imgs.len() == total,
                images@ == imgs.skip(j as int),
                all == merged_rows(texts@, imgs),
                nt == texts@.len(),
                keys@.len() == rows@.len(),
                zipped(keys@, rows@) == sort_rows(all.take(nt + j), newest_first),
            decreases images.len(),
        {
            let e = images.remove(0);
            assert(e == imgs[j as int]);
            let key = (e.pinned, e.id);
            let row = image_result(e);
            insert_row(&mut keys, &mut rows, key, row, newest_first);
            proof {
                assert(all.take(nt + j + 1).drop_last() == all.take(nt + j));
                assert(all.take(nt + j + 1).last() == all[nt + j]);
                assert(images@ == imgs.skip(j + 1));
            }
            j += 1;
        }
        assert(all.take(nt + j) == all);
        assert(rows@.map_values(|x: SearchResult| super::row_view(x)) == zipped(keys@, rows@).map_values(|k: Keyed| k.2));
        rows
    }
}

} // verus!
