//! Emoji picker: `emoji <term>` or `:<term>` lists matching emoji by name
//! or GitHub shortcode.
use vstd::prelude::*;
use crate::text;
use super::{plain_result, RowView, SearchResult};

verus! {

/// At most this many emoji are listed.
pub const MAX_EMOJI: usize = 20;

/// One emoji of the catalogue.
pub struct EmojiEntry {
    /// The emoji itself.
    pub glyph: String,
    /// Its CLDR name.
    pub name: String,
    /// Its GitHub shortcodes, first the main one.
    pub shortcodes: Vec<String>,
}

/// An emoji as values: glyph, name, shortcodes.
pub open spec fn entry_view(e: EmojiEntry) -> (Seq<char>, Seq<char>, Seq<Seq<char>>) {
    (e.glyph@, e.name@, e.shortcodes@.map_values(|c: String| c@))
}

/// The `i`-th emoji that `emojis::iter()` yields, as values (glyph, name,
/// shortcodes); `None` past the last. The crate's fixed data.
pub uninterp spec fn emoji_entry(i: int) -> Option<(Seq<char>, Seq<char>, Seq<Seq<char>>)>;

/// `c` is the whole catalogue: its entries are those `emojis::iter()`
/// yields, in order, and there are no more.
pub open spec fn is_catalog(c: Seq<EmojiEntry>) -> bool {
    &&& forall|i: int| 0 <= i < c.len() ==> emoji_entry(i) == Some(entry_view(#[trigger] c[i]))
    &&& emoji_entry(c.len() as int) is None
}

/// There is one catalogue: two that both are the whole catalogue agree.
pub proof fn lemma_catalog_is_unique(c1: Seq<EmojiEntry>, c2: Seq<EmojiEntry>)
    requires
        is_catalog(c1),
        is_catalog(c2),
    ensures
        c1.len() == c2.len(),
        forall|i: int| 0 <= i < c1.len() ==> entry_view(#[trigger] c1[i]) == entry_view(c2[i]),
{
    if c1.len() < c2.len() {
        assert(emoji_entry(c1.len() as int) == Some(entry_view(c2[c1.len() as int])));
    }
    if c2.len() < c1.len() {
        assert(emoji_entry(c2.len() as int) == Some(entry_view(c1[c2.len() as int])));
    }
    assert forall|i: int| 0 <= i < c1.len() implies entry_view(#[trigger] c1[i]) == entry_view(c2[i]) by {
        assert(emoji_entry(i) == Some(entry_view(c1[i])));
        assert(emoji_entry(i) == Some(entry_view(c2[i])));
    }
}

/// The catalogue, in `emojis::iter()` order (default skin tones only):
/// entry `i` is `emoji_entry(i)` and there are no more. Besides, what the
/// crate documents: it starts with 😀, 😃, 😄, 😁, 😆, and it holds at
/// least `MAX_EMOJI` emoji (well over a thousand in fact).
#[verifier::external_body]
fn emoji_catalog() -> (r: Vec<EmojiEntry>)
    ensures
        forall|i: int| 0 <= i < r@.len() ==> emoji_entry(i) == Some(entry_view(#[trigger] r@[i])),
        emoji_entry(r@.len() as int) is None,
        r@.len() >= MAX_EMOJI,
        r@[0].glyph@ == "😀"@,
        r@[1].glyph@ == "😃"@,
        r@[2].glyph@ == "😄"@,
        r@[3].glyph@ == "😁"@,
        r@[4].glyph@ == "😆"@,
{
    emojis::iter().map(
        |e| EmojiEntry {
            glyph: e.as_str().to_string(),
            name: e.name().to_string(),
            shortcodes: e.shortcodes().map(|c| c.to_string()).collect(),
        },
    ).collect()
}

/// `s` with every leading copy of `p` removed (`str::trim_start_matches`).
pub open spec fn strip_all_prefix(s: Seq<char>, p: Seq<char>) -> Seq<char>
    decreases s.len(),
{
    if p.len() > 0 && text::starts_with(s, p) {
        strip_all_prefix(s.skip(p.len() as int), p)
    } else {
        s
    }
}

/// The search term: the trimmed, lower-cased query without leading
/// `emoji` words and `:` marks, trimmed again.
pub open spec fn emoji_term(query: Seq<char>) -> Seq<char> {
    let q = text::unicode_lower(text::trim(query));
    text::trim(strip_all_prefix(text::trim(strip_all_prefix(q, "emoji"@)), ":"@))
}

/// The emoji matches the term: every emoji for an empty term, else by its
/// lower-cased name or any shortcode containing the term.
pub open spec fn emoji_matches(e: EmojiEntry, term: Seq<char>) -> bool {
    term.len() == 0 || text::contains_seq(text::unicode_lower(e.name@), term) || exists|k: int|
        0 <= k < e.shortcodes@.len() && text::contains_seq(#[trigger] e.shortcodes@[k]@, term)
}

/// `glyph`, two spaces, and `:code:` for the first shortcode (nothing when
/// there is none).
pub open spec fn emoji_title(e: EmojiEntry) -> Seq<char> {
    e.glyph@ + "  "@ + (if e.shortcodes@.len() > 0 {
        ":"@ + e.shortcodes@[0]@ + ":"@
    } else {
        Seq::empty()
    })
}

/// The row of the `i`-th listed emoji; its score before the favourites
/// boost is `500 - i`.
pub open spec fn emoji_row(e: EmojiEntry, i: int) -> RowView {
    (emoji_title(e), e.name@, "emoji"@, "emoji"@, e.glyph@, None, (500 - i) as i64)
}

proof fn lemma_filter_all(s: Seq<EmojiEntry>, p: spec_fn(EmojiEntry) -> bool)
    requires
        forall|e: EmojiEntry| #[trigger] p(e),
    ensures
        s.filter(p) == s,
    decreases s.len(),
{
    reveal(Seq::filter);
    if s.len() > 0 {
        lemma_filter_all(s.drop_last(), p);
        assert(s.drop_last().push(s.last()) == s);
    }
}

/// The listed emoji: the first `MAX_EMOJI` that match.
pub open spec fn listed(catalog: Seq<EmojiEntry>, term: Seq<char>) -> Seq<EmojiEntry> {
    let m = catalog.filter(|e: EmojiEntry| emoji_matches(e, term));
    if m.len() > MAX_EMOJI {
        m.take(MAX_EMOJI as int)
    } else {
        m
    }
}

fn strip_all_prefix_exec(v: &Vec<char>, p: &str) -> (r: Vec<char>)
    requires
        p@.len() > 0,
    ensures
        r@ == strip_all_prefix(v@, p@),
{
    let pv = text::chars_of(p);
    let mut i: usize = 0;
    assert(v@.skip(0) == v@);
    while i <= v.len() && text::starts_with_at(v, i, p)
        invariant
            i <= v@.len(),
            pv@ == p@,
            p@.len() > 0,
            strip_all_prefix(v@.skip(i as int), p@) == strip_all_prefix(v@, p@),
        decreases v.len() - i,
    {
        assert(v@.skip(i as int).skip(p@.len() as int) == v@.skip(i + pv.len()));
        i += pv.len();
    }
    text::subvec(v, i, v.len())
}

/// Whether `e` matches `term`.
fn matches_exec(e: &EmojiEntry, term: &Vec<char>) -> (b: bool)
    ensures
        b == emoji_matches(*e, term@),
{
    if term.len() == 0 {
        return true;
    }
    let name = text::lower_unicode_chars(&text::chars_of(e.name.as_str()));
    if text::contains_exec(&name, term) {
        return true;
    }
    let mut k: usize = 0;
    while k < e.shortcodes.len()
        invariant
            k <= e.shortcodes@.len(),
            term@.len() > 0,
            !text::contains_seq(text::unicode_lower(e.name@), term@),
            forall|j: int| 0 <= j < k ==> !text::contains_seq(#[trigger] e.shortcodes@[j]@, term@),
        decreases e.shortcodes.len() - k,
    {
        let sc = text::chars_of(e.shortcodes[k].as_str());
        if text::contains_exec(&sc, term) {
            assert(text::contains_seq(e.shortcodes@[k as int]@, term@));
            return true;
        }
        k += 1;
    }
    false
}

/// The title of an emoji's row.
fn title_of(e: &EmojiEntry) -> (s: String)
    ensures
        s@ == emoji_title(*e),
{
    let mut s = String::new();
    text::push_all(&mut s, e.glyph.as_str());
    text::push_all(&mut s, "  ");
    if e.shortcodes.len() > 0 {
        text::push_all(&mut s, ":");
        text::push_all(&mut s, e.shortcodes[0].as_str());
        text::push_all(&mut s, ":");
    }
    s
}

/// The rows for `query` over a catalogue: the first 20 emoji that match,
/// in catalogue order.
pub fn search_in(catalog: &Vec<EmojiEntry>, query: &str) -> (r: Vec<SearchResult>)
    ensures
        ({
            let l = listed(catalog@, emoji_term(query@));
            &&& r@.len() == l.len()
            &&& forall|i: int| 0 <= i < l.len() ==> super::row_view(#[trigger] r@[i]) == emoji_row(l[i], i)
        }),
{
    let v = text::chars_of(query);
    let q = text::lower_unicode_chars(&text::trim_chars(&v));
    proof {
        reveal_strlit("emoji");
        reveal_strlit(":");
    }
    let a = strip_all_prefix_exec(&q, "emoji");
    let b = strip_all_prefix_exec(&text::trim_chars(&a), ":");
    let term = text::trim_chars(&b);
    let ghost all = catalog@;
    let ghost pred = |e: EmojiEntry| emoji_matches(e, term@);
    let mut out: Vec<SearchResult> = Vec::new();
    let ghost mut picked: Seq<EmojiEntry> = Seq::empty();
    let mut i: usize = 0;
    while i < catalog.len()
        invariant
            i <= all.len(),
            all == catalog@,
            term@ == emoji_term(query@),
            pred == (|e: EmojiEntry| emoji_matches(e, term@)),
            picked == all.take(i as int).filter(pred),
            out@.len() == picked.len(),
            out@.len() < MAX_EMOJI,
            forall|j: int| 0 <= j < picked.len() ==> super::row_view(#[trigger] out@[j]) == emoji_row(picked[j], j),
        decreases catalog.len() - i,
    {
        let e = &catalog[i];
        let m = matches_exec(e, &term);
        proof {
            reveal(Seq::filter);
            assert(all.take(i + 1).drop_last() == all.take(i as int));
            assert(all.take(i + 1).last() == all[i as int]);
        }
        if m {
            let n = out.len();
            let row = plain_result(title_of(e), e.name.clone(), "emoji", "emoji", e.glyph.clone(), 500 - n as i64);
            out.push(row);
            proof {
                picked = picked.push(*e);
            }
            if out.len() >= MAX_EMOJI {
                proof {
                    assert(picked == all.take(i + 1).filter(pred));
                    lemma_take_filter_prefix(all, pred, i + 1);
                    let m = all.filter(pred);
                    if m.len() == MAX_EMOJI {
                        assert(m.take(MAX_EMOJI as int) == m);
                    }
                }
                return out;
            }
        }
        i += 1;
    }
    assert(all.take(i as int) == all);
    out
}

/// Once `k` items of the filter are reached within `s[..n]`, the first `k`
/// of the whole filter are those of `s[..n]`.
proof fn lemma_take_filter_prefix(s: Seq<EmojiEntry>, pred: spec_fn(EmojiEntry) -> bool, n: int)
    requires
        0 <= n <= s.len(),
        s.take(n).filter(pred).len() == MAX_EMOJI,
    ensures
        ({
            let m = s.filter(pred);
            &&& m.len() >= MAX_EMOJI
            &&& m.take(MAX_EMOJI as int) == s.take(n).filter(pred)
        }),
{
    lemma_filter_extend(s, pred, n);
}

/// The filter of a longer prefix extends the filter of a shorter one.
proof fn lemma_filter_extend(s: Seq<EmojiEntry>, pred: spec_fn(EmojiEntry) -> bool, n: int)
    requires
        0 <= n <= s.len(),
    ensures
        s.filter(pred).len() >= s.take(n).filter(pred).len(),
        s.filter(pred).take(s.take(n).filter(pred).len() as int) == s.take(n).filter(pred),
    decreases s.len() - n,
{
    reveal(Seq::filter);
    if n < s.len() {
        lemma_filter_extend(s, pred, n + 1);
        assert(s.take(n + 1).drop_last() == s.take(n));
        assert(s.take(n + 1).last() == s[n]);
        let a = s.take(n).filter(pred);
        let b = s.take(n + 1).filter(pred);
        if pred(s[n]) {
            assert(b == a.push(s[n]));
            assert(b.take(a.len() as int) == a);
        } else {
            assert(b == a);
        }
        assert(s.filter(pred).take(a.len() as int) == s.filter(pred).take(b.len() as int).take(a.len() as int));
    } else {
        assert(s.take(n) == s);
        assert(s.filter(pred).take(s.filter(pred).len() as int) == s.filter(pred));
    }
}

pub struct EmojiProvider;

impl EmojiProvider {
    /// Runs on queries starting with `emoji` or `:` (trimmed, lower-cased).
    pub fn should_run(&self, query: &str) -> (b: bool)
        ensures
            b == ({
                let q = text::unicode_lower(text::trim(query@));
                text::starts_with(q, "emoji"@) || text::starts_with(q, ":"@)
            }),
    {
        let v = text::chars_of(query);
        let q = text::lower_unicode_chars(&text::trim_chars(&v));
        assert(q@.skip(0) == q@);
        text::starts_with_at(&q, 0, "emoji") || text::starts_with_at(&q, 0, ":")
    }

    /// The rows for `query` over the `emojis` catalogue (see `search_in`):
    /// the catalogue here is the whole catalogue (`is_catalog`), of which
    /// there is one (`lemma_catalog_is_unique`).
    pub fn search(&self, query: &str) -> (r: Vec<SearchResult>)
        ensures
            exists|catalog: Seq<EmojiEntry>|
                {
                    let l = #[trigger] listed(catalog, emoji_term(query@));
                    &&& is_catalog(catalog)
                    &&& catalog.len() >= MAX_EMOJI
                    &&& catalog[0].glyph@ == "😀"@
                    &&& r@.len() == l.len()
                    &&& forall|i: int| 0 <= i < l.len() ==> super::row_view(#[trigger] r@[i]) == emoji_row(l[i], i)
                },
            emoji_term(query@).len() == 0 ==> r@.len() == MAX_EMOJI,
    {
        let catalog = emoji_catalog();
        let r = search_in(&catalog, query);
        proof {
            let term = emoji_term(query@);
            if term.len() == 0 {
                let p = |e: EmojiEntry| emoji_matches(e, term);
                lemma_filter_all(catalog@, p);
                assert(listed(catalog@, term).len() == MAX_EMOJI);
            }
        }
        r
    }
}

} // verus!
