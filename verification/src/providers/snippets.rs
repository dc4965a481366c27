//! Snippets: named texts to copy. Typing a snippet's name (any ASCII case)
//! offers its text; `snip` or `snippet` lists them all, optionally filtered
//! (`snip invoice`).
use vstd::prelude::*;
use crate::text;
use super::{plain_result, RowView, SearchResult};

verus! {

/// At most this many snippets are listed.
pub const MAX_LISTED: usize = 15;

/// `a` sorts before `b`: by character code, a proper prefix first (the
/// order of `str`'s comparison, since UTF-8 keeps the order of codes).
pub open spec fn name_less(a: Seq<char>, b: Seq<char>) -> bool
    decreases a.len(),
{
    if a.len() == 0 {
        b.len() > 0
    } else if b.len() == 0 {
        false
    } else if a[0] != b[0] {
        (a[0] as u32) < (b[0] as u32)
    } else {
        name_less(a.drop_first(), b.drop_first())
    }
}

/// `x` inserted before the first entry whose name it sorts before.
pub open spec fn insert_by_name(s: Seq<(Seq<char>, Seq<char>)>, x: (Seq<char>, Seq<char>)) -> Seq<(Seq<char>, Seq<char>)>
    decreases s.len(),
{
    if s.len() == 0 {
        seq![x]
    } else if name_less(x.0, s[0].0) {
        seq![x] + s
    } else {
        seq![s[0]] + insert_by_name(s.drop_first(), x)
    }
}

/// The entries sorted by name (stable).
pub open spec fn sort_by_name(s: Seq<(Seq<char>, Seq<char>)>) -> Seq<(Seq<char>, Seq<char>)>
    decreases s.len(),
{
    if s.len() == 0 {
        s
    } else {
        insert_by_name(sort_by_name(s.drop_last()), s.last())
    }
}

pub open spec fn pair_views(v: Seq<(String, String)>) -> Seq<(Seq<char>, Seq<char>)> {
    v.map_values(|p: (String, String)| (p.0@, p.1@))
}

fn name_less_exec(a: &Vec<char>, b: &Vec<char>) -> (r: bool)
    ensures
        r == name_less(a@, b@),
{
    let mut i: usize = 0;
    assert(a@.skip(0) == a@);
    assert(b@.skip(0) == b@);
    while i < a.len() && i < b.len() && a[i] == b[i]
        invariant
            i <= a@.len(),
            i <= b@.len(),
            name_less(a@.skip(i as int), b@.skip(i as int)) == name_less(a@, b@),
        decreases a.len() - i,
    {
        assert(a@.skip(i as int).drop_first() == a@.skip(i + 1));
        assert(b@.skip(i as int).drop_first() == b@.skip(i + 1));
        i += 1;
    }
    if i == a.len() {
        i < b.len()
    } else if i == b.len() {
        false
    } else {
        assert(a@.skip(i as int)[0] == a@[i as int]);
        assert(b@.skip(i as int)[0] == b@[i as int]);
        (a[i] as u32) < (b[i] as u32)
    }
}

proof fn lemma_insert_at(s: Seq<(Seq<char>, Seq<char>)>, x: (Seq<char>, Seq<char>), p: int)
    requires
        0 <= p <= s.len(),
        forall|j: int| 0 <= j < p ==> !name_less(x.0, #[trigger] s[j].0),
        p < s.len() ==> name_less(x.0, s[p].0),
    ensures
        insert_by_name(s, x) == s.take(p) + seq![x] + s.skip(p),
    decreases s.len(),
{
    if s.len() == 0 {
        assert(s.take(p) + seq![x] + s.skip(p) == seq![x]);
    } else if p == 0 {
        assert(s.take(0) + seq![x] + s.skip(0) == seq![x] + s);
    } else {
        let t = s.drop_first();
        assert forall|j: int| 0 <= j < p - 1 implies !name_less(x.0, #[trigger] t[j].0) by {
            assert(t[j] == s[j + 1]);
        }
        if p - 1 < t.len() {
            assert(t[p - 1] == s[p]);
        }
        lemma_insert_at(t, x, p - 1);
        assert(seq![s[0]] + (t.take(p - 1) + seq![x] + t.skip(p - 1)) == s.take(p) + seq![x] + s.skip(p));
    }
}

/// The snippets sorted by name.
pub fn sorted_by_name(items: Vec<(String, String)>) -> (r: Vec<(String, String)>)
    ensures
        pair_views(r@) == sort_by_name(pair_views(items@)),
{
    let ghost all = pair_views(items@);
    let total = items.len();
    let mut items = items;
    let ghost orig = items@;
    let mut out: Vec<(String, String)> = Vec::new();
    let mut names: Vec<Vec<char>> = Vec::new();
    let mut k: usize = 0;
    assert(pair_views(out@) == sort_by_name(all.take(0)));
    while items.len() > 0
        invariant
            k + items@.len() == total,
            orig.len() == total,
            items@ == orig.skip(k as int),
            all == pair_views(orig),
            names@.len() == out@.len(),
            forall|j: int| 0 <= j < names@.len() ==> #[trigger] names@[j]@ == out@[j].0@,
            pair_views(out@) == sort_by_name(all.take(k as int)),
        decreases items.len(),
    {
        let item = items.remove(0);
        assert(item == orig[k as int]);
        let nv = text::chars_of(item.0.as_str());
        let mut p: usize = 0;
        while p < out.len() && !name_less_exec(&nv, &names[p])
            invariant
                p <= out@.len(),
                names@.len() == out@.len(),
                nv@ == item.0@,
                forall|j: int| 0 <= j < names@.len() ==> #[trigger] names@[j]@ == out@[j].0@,
                forall|j: int| 0 <= j < p ==> !name_less(item.0@, #[trigger] pair_views(out@)[j].0),
            decreases out.len() - p,
        {
            p += 1;
        }
        let ghost before = pair_views(out@);
        proof {
            lemma_insert_at(before, (item.0@, item.1@), p as int);
        }
        out.insert(p, item);
        names.insert(p, nv);
        proof {
            assert(pair_views(out@) == before.take(p as int) + seq![(orig[k as int].0@, orig[k as int].1@)] + before.skip(p as int));
            assert(all.take(k + 1).drop_last() == all.take(k as int));
            assert(all.take(k + 1).last() == all[k as int]);
            assert forall|j: int| 0 <= j < names@.len() implies #[trigger] names@[j]@ == out@[j].0@ by {
                if j < p {
                } else if j == p {
                } else {
                }
            }
            assert(items@ == orig.skip(k + 1));
        }
        k += 1;
    }
    assert(all.take(k as int) == all);
    out
}

/// `s` is in name order: no entry's name sorts before an earlier one's.
pub open spec fn in_name_order(s: Seq<(Seq<char>, Seq<char>)>) -> bool {
    forall|i: int, j: int| 0 <= i < j < s.len() ==> !name_less(#[trigger] s[j].0, #[trigger] s[i].0)
}

proof fn lemma_name_less_asymmetric(a: Seq<char>, b: Seq<char>)
    requires
        name_less(a, b),
    ensures
        !name_less(b, a),
    decreases a.len(),
{
    if a.len() > 0 && b.len() > 0 && a[0] == b[0] {
        lemma_name_less_asymmetric(a.drop_first(), b.drop_first());
    }
}

proof fn lemma_name_less_transitive(a: Seq<char>, b: Seq<char>, c: Seq<char>)
    requires
        name_less(a, b),
        name_less(b, c),
    ensures
        name_less(a, c),
    decreases a.len(),
{
    if a.len() > 0 && a[0] == b[0] && b[0] == c[0] {
        lemma_name_less_transitive(a.drop_first(), b.drop_first(), c.drop_first());
    }
}

proof fn lemma_name_less_total(a: Seq<char>, b: Seq<char>)
    requires
        a != b,
    ensures
        name_less(a, b) || name_less(b, a),
    decreases a.len(),
{
    if a.len() == 0 && b.len() == 0 {
        assert(a =~= b);
    } else if a.len() > 0 && b.len() > 0 && a[0] == b[0] {
        if a.drop_first() == b.drop_first() {
            assert(a =~= seq![a[0]] + a.drop_first());
            assert(b =~= seq![b[0]] + b.drop_first());
        }
        lemma_name_less_total(a.drop_first(), b.drop_first());
    } else if a.len() > 0 && b.len() > 0 {
        vstd::utf8::char_u32_cast(a[0], a[0] as u32);
        vstd::utf8::char_u32_cast(b[0], b[0] as u32);
    }
}

/// `y` sorts before none of `s`'s names and not after `x`'s: so it sorts
/// before none of the names once `x` is inserted.
proof fn lemma_insert_keeps_floor(s: Seq<(Seq<char>, Seq<char>)>, x: (Seq<char>, Seq<char>), y: Seq<char>)
    requires
        forall|k: int| 0 <= k < s.len() ==> !name_less(#[trigger] s[k].0, y),
        !name_less(x.0, y),
    ensures
        insert_by_name(s, x).len() == s.len() + 1,
        forall|k: int| 0 <= k < insert_by_name(s, x).len() ==> !name_less(#[trigger] insert_by_name(s, x)[k].0, y),
    decreases s.len(),
{
    if s.len() > 0 && !name_less(x.0, s[0].0) {
        let t = s.drop_first();
        assert forall|k: int| 0 <= k < t.len() implies !name_less(#[trigger] t[k].0, y) by {
            assert(t[k] == s[k + 1]);
        }
        lemma_insert_keeps_floor(t, x, y);
        let r = seq![s[0]] + insert_by_name(t, x);
        assert forall|k: int| 0 <= k < r.len() implies !name_less(#[trigger] r[k].0, y) by {
            if k > 0 {
                assert(r[k] == insert_by_name(t, x)[k - 1]);
            }
        }
    }
}

proof fn lemma_insert_in_order(s: Seq<(Seq<char>, Seq<char>)>, x: (Seq<char>, Seq<char>))
    requires
        in_name_order(s),
    ensures
        in_name_order(insert_by_name(s, x)),
        insert_by_name(s, x).to_multiset() =~= s.to_multiset().insert(x),
    decreases s.len(),
{
    broadcast use vstd::seq_lib::group_to_multiset_ensures;
    broadcast use vstd::multiset::group_multiset_axioms;
    if s.len() == 0 {
        assert(seq![x] =~= s.push(x));
    } else if name_less(x.0, s[0].0) {
        let r = seq![x] + s;
        assert forall|i: int, j: int| 0 <= i < j < r.len() implies !name_less(#[trigger] r[j].0, #[trigger] r[i].0) by {
            assert(r[j] == s[j - 1]);
            if i == 0 {
                let y = s[j - 1].0;
                if j - 1 > 0 && y != s[0].0 {
                    lemma_name_less_total(y, s[0].0);
                    lemma_name_less_transitive(x.0, s[0].0, y);
                }
                lemma_name_less_asymmetric(x.0, y);
            } else {
                assert(r[i] == s[i - 1]);
            }
        }
        vstd::seq_lib::lemma_seq_union_to_multiset_commutative(seq![x], s);
        assert(s + seq![x] =~= s.push(x));
    } else {
        let t = s.drop_first();
        let u = insert_by_name(t, x);
        assert forall|i: int, j: int| 0 <= i < j < t.len() implies !name_less(#[trigger] t[j].0, #[trigger] t[i].0) by {
            assert(t[j] == s[j + 1]);
            assert(t[i] == s[i + 1]);
        }
        assert forall|k: int| 0 <= k < t.len() implies !name_less(#[trigger] t[k].0, s[0].0) by {
            assert(t[k] == s[k + 1]);
        }
        lemma_insert_in_order(t, x);
        lemma_insert_keeps_floor(t, x, s[0].0);
        let r = seq![s[0]] + u;
        assert forall|i: int, j: int| 0 <= i < j < r.len() implies !name_less(#[trigger] r[j].0, #[trigger] r[i].0) by {
            assert(r[j] == u[j - 1]);
            if i > 0 {
                assert(r[i] == u[i - 1]);
            }
        }
        vstd::seq_lib::lemma_seq_union_to_multiset_commutative(seq![s[0]], u);
        vstd::seq_lib::lemma_seq_union_to_multiset_commutative(seq![s[0]], t);
        assert(u + seq![s[0]] =~= u.push(s[0]));
        assert(t + seq![s[0]] =~= t.push(s[0]));
        assert(s =~= seq![s[0]] + t);
    }
}

/// Sorting by name keeps every snippet, as often as it came, and leaves no
/// name sorting before an earlier one.
pub proof fn lemma_sort_by_name(s: Seq<(Seq<char>, Seq<char>)>)
    ensures
        in_name_order(sort_by_name(s)),
        sort_by_name(s).to_multiset() =~= s.to_multiset(),
    decreases s.len(),
{
    broadcast use vstd::seq_lib::group_to_multiset_ensures;
    if s.len() > 0 {
        lemma_sort_by_name(s.drop_last());
        lemma_insert_in_order(sort_by_name(s.drop_last()), s.last());
        assert(s =~= s.drop_last().push(s.last()));
    }
}

/// `q` (trimmed, lower-cased) asks for the list: `snip` or `snippet`,
/// alone or followed by a space.
pub open spec fn spec_is_listing(q: Seq<char>) -> bool {
    q == "snip"@ || text::starts_with(q, "snip "@) || q == "snippet"@ || text::starts_with(q, "snippet "@)
}

/// Whether `q` asks for the list.
pub fn is_listing(q: &Vec<char>) -> (b: bool)
    ensures
        b == spec_is_listing(q@),
{
    assert(q@.skip(0) == q@);
    text::eq_str(q, "snip") || text::starts_with_at(q, 0, "snip ") || text::eq_str(q, "snippet")
        || text::starts_with_at(q, 0, "snippet ")
}

/// The filter word of a listing query: the text after its first space,
/// trimmed (empty when there is no space).
pub open spec fn listing_term(q: Seq<char>) -> Seq<char> {
    let k = text::first_where(q, 0, |c: char| c == ' ');
    if k >= q.len() {
        Seq::empty()
    } else {
        text::trim(q.skip(k + 1))
    }
}

/// A listed snippet matches the term in its name or its text (ASCII case
/// ignored).
pub open spec fn matches_term(item: (Seq<char>, Seq<char>), term: Seq<char>) -> bool {
    text::contains_seq(text::ascii_lower(item.0), term) || text::contains_seq(text::ascii_lower(item.1), term)
}

/// The snippets a query shows: for a listing, those matching the term (all
/// when it is empty), at most `MAX_LISTED`; otherwise those named exactly
/// the query (ASCII case ignored).
pub open spec fn shown(items: Seq<(Seq<char>, Seq<char>)>, q: Seq<char>) -> Seq<(Seq<char>, Seq<char>)> {
    if spec_is_listing(q) {
        let term = listing_term(q);
        let kept = if term.len() == 0 {
            items
        } else {
            items.filter(|it: (Seq<char>, Seq<char>)| matches_term(it, term))
        };
        if kept.len() > MAX_LISTED {
            kept.take(MAX_LISTED as int)
        } else {
            kept
        }
    } else {
        items.filter(|it: (Seq<char>, Seq<char>)| text::eq_ignore_case(it.0, q))
    }
}

/// The first 48 characters of a snippet's text, and `…` when there is more.
pub open spec fn snippet_subtitle(t: Seq<char>) -> Seq<char> {
    if t.len() > 48 {
        t.take(48) + "…"@
    } else {
        t
    }
}

/// The row of the `i`-th shown snippet.
pub open spec fn snippet_row(item: (Seq<char>, Seq<char>), i: int, listing: bool) -> RowView {
    (
        item.0,
        snippet_subtitle(item.1),
        "snippet"@,
        "snippets"@,
        item.1,
        None,
        if listing {
            (500 - i) as i64
        } else {
            700
        },
    )
}

pub struct SnippetsProvider {
    snippets: Vec<(String, String)>,
}

impl SnippetsProvider {
    /// The snippets held, as (name, text), in name order.
    pub closed spec fn items(&self) -> Seq<(Seq<char>, Seq<char>)> {
        pair_views(self.snippets@)
    }
}

impl View for SnippetsProvider {
    type V = Seq<(Seq<char>, Seq<char>)>;

    open spec fn view(&self) -> Seq<(Seq<char>, Seq<char>)> {
        self.items()
    }
}

impl SnippetsProvider {
    /// A provider holding `items` (name, text), sorted by name.
    pub fn new(items: Vec<(String, String)>) -> (p: Self)
        ensures
            p@ == sort_by_name(pair_views(items@)),
    {
        SnippetsProvider { snippets: sorted_by_name(items) }
    }

    /// Replace the snippets (after the file was read again).
    pub fn set_snippets(&mut self, items: Vec<(String, String)>)
        ensures
            final(self)@ == sort_by_name(pair_views(items@)),
    {
        self.snippets = sorted_by_name(items);
    }

    /// Runs on a listing query, or on the name of a snippet (trimmed, ASCII
    /// case ignored).
    pub fn should_run(&self, query: &str) -> (b: bool)
        ensures
            b == ({
                let q = text::ascii_lower(text::trim(query@));
                q.len() > 0 && (spec_is_listing(q) || exists|i: int|
                    0 <= i < self@.len() && text::eq_ignore_case(#[trigger] self@[i].0, q))
            }),
    {
        let v = text::chars_of(query);
        let t = text::trim_chars(&v);
        let q = text::lower_chars(&t);
        if q.len() == 0 {
            return false;
        }
        if is_listing(&q) {
            return true;
        }
        let qs = text::string_of(&q, 0, q.len());
        assert(q@.subrange(0, q@.len() as int) == q@);
        let mut i: usize = 0;
        while i < self.snippets.len()
            invariant
                i <= self@.len(),
                self@.len() == self.snippets@.len(),
                qs@ == q@,
                q@ == text::ascii_lower(text::trim(query@)),
                q@.len() > 0,
                forall|j: int| 0 <= j < i ==> !text::eq_ignore_case(#[trigger] self@[j].0, q@),
            decreases self.snippets.len() - i,
        {
            let nv = text::chars_of(self.snippets[i].0.as_str());
            assert(self@[i as int].0 == self.snippets@[i as int].0@);
            if text::eq_ignore_case_str(&nv, qs.as_str()) {
                assert(text::eq_ignore_case(self@[i as int].0, q@));
                return true;
            }
            i += 1;
        }
        false
    }

    /// The rows for `query` (see `shown` and `snippet_row`): a listing
    /// scores 500, 499, … down the list; a name match scores 700.
    pub fn search(&self, query: &str) -> (r: Vec<SearchResult>)
        ensures
            ({
                let q = text::ascii_lower(text::trim(query@));
                let s = shown(self@, q);
                &&& r@.len() == s.len()
                &&& forall|i: int|
                    0 <= i < s.len() ==> super::row_view(#[trigger] r@[i]) == snippet_row(s[i], i, spec_is_listing(q))
            }),
    {
        let v = text::chars_of(query);
        let t = text::trim_chars(&v);
        let q = text::lower_chars(&t);
        let listing = is_listing(&q);
        let ghost items = self@;
        let ghost pred: spec_fn((Seq<char>, Seq<char>)) -> bool = if listing {
            |it: (Seq<char>, Seq<char>)| matches_term(it, listing_term(q@))
        } else {
            |it: (Seq<char>, Seq<char>)| text::eq_ignore_case(it.0, q@)
        };
        let mut term: Vec<char> = Vec::new();
        if listing {
            let space: Vec<char> = vec![' '];
            let k = text::first_of(&q, 0, &space);
            proof {
                assert forall|c: char| space@.contains(c) == (c == ' ') by {
                    if c == ' ' {
                        assert(space@[0] == c);
                    }
                }
                assert((|c: char| space@.contains(c)) == (|c: char| c == ' '));
            }
            if k < q.len() {
                let after = text::subvec(&q, k + 1, q.len());
                assert(after@ == q@.skip(k + 1));
                term = text::trim_chars(&after);
            }
        }
        assert(listing ==> term@ == listing_term(q@));
        let filter_all = listing && term.len() == 0;
        let qs = text::string_of(&q, 0, q.len());
        assert(q@.subrange(0, q@.len() as int) == q@);
        let mut kept: Vec<usize> = Vec::new();
        let mut i: usize = 0;
        while i < self.snippets.len()
            invariant
                i <= self.snippets@.len(),
                items == self@,
                items.len() == self.snippets@.len(),
                qs@ == q@,
                listing == spec_is_listing(q@),
                listing ==> term@ == listing_term(q@),
                filter_all == (listing && term@.len() == 0),
                pred == (if listing {
                    |it: (Seq<char>, Seq<char>)| matches_term(it, listing_term(q@))
                } else {
                    |it: (Seq<char>, Seq<char>)| text::eq_ignore_case(it.0, q@)
                }),
                forall|j: int| 0 <= j < kept@.len() ==> #[trigger] kept@[j] < i,
                kept@.map_values(|j: usize| items[j as int]) == (if filter_all {
                    items.take(i as int)
                } else {
                    items.take(i as int).filter(pred)
                }),
            decreases self.snippets.len() - i,
        {
            let name = &self.snippets[i].0;
            let body = &self.snippets[i].1;
            assert(items[i as int] == (name@, body@));
            let keep = if filter_all {
                true
            } else if listing {
                let ln = text::lower_chars(&text::chars_of(name.as_str()));
                let lb = text::lower_chars(&text::chars_of(body.as_str()));
                text::contains_exec(&ln, &term) || text::contains_exec(&lb, &term)
            } else {
                let nv = text::chars_of(name.as_str());
                text::eq_ignore_case_str(&nv, qs.as_str())
            };
            let ghost before = kept@;
            proof {
                reveal(Seq::filter);
                assert(items.take(i + 1).drop_last() == items.take(i as int));
                assert(items.take(i + 1).last() == items[i as int]);
                if !filter_all {
                    assert(keep == pred(items[i as int]));
                }
            }
            if keep {
                kept.push(i);
                assert(kept@.map_values(|j: usize| items[j as int]) == before.map_values(|j: usize| items[j as int]).push(items[i as int]));
            }
            i += 1;
        }
        assert(items.take(i as int) == items);
        let ghost chosen = kept@.map_values(|j: usize| items[j as int]);
        let mut count = kept.len();
        if listing && count > MAX_LISTED {
            count = MAX_LISTED;
        }
        proof {
            if listing {
                assert(filter_all ==> chosen == items);
                assert(!filter_all ==> chosen == items.filter(pred));
            }
            assert(shown(items, q@) == (if listing && chosen.len() > MAX_LISTED {
                chosen.take(MAX_LISTED as int)
            } else {
                chosen
            }));
        }
        let mut out: Vec<SearchResult> = Vec::new();
        let mut n: usize = 0;
        while n < count
            invariant
                n <= count <= kept@.len(),
                count <= MAX_LISTED || !listing,
                listing == spec_is_listing(q@),
                items == self@,
                items.len() == self.snippets@.len(),
                forall|j: int| 0 <= j < kept@.len() ==> #[trigger] kept@[j] < items.len(),
                chosen == kept@.map_values(|j: usize| items[j as int]),
                out@.len() == n,
                forall|j: int| 0 <= j < n ==> super::row_view(#[trigger] out@[j]) == snippet_row(chosen[j], j, listing),
            decreases count - n,
        {
            let idx = kept[n];
            let name = &self.snippets[idx].0;
            let body = &self.snippets[idx].1;
            assert(chosen[n as int] == (name@, body@));
            let bv = text::chars_of(body.as_str());
            let mut sub = String::new();
            if bv.len() > 48 {
                text::push_all(&mut sub, text::string_of(&bv, 0, 48).as_str());
                text::push_all(&mut sub, "…");
            } else {
                text::push_all(&mut sub, body.as_str());
            }
            let score: i64 = if listing {
                500 - n as i64
            } else {
                700
            };
            out.push(plain_result(name.clone(), sub, "snippet", "snippets", body.clone(), score));
            n += 1;
        }
        out
    }
}

} // verus!
