//! Find-next over a text buffer: byte-wise search for the query from just
//! past the last match, wrapping to the text before it.
use vstd::prelude::*;
use crate::editor::buffer::{TextBuffer, is_boundary, utf8};

verus! {

broadcast use vstd::utf8::encode_utf8_valid_utf8;

/// `q` occurs in `b` at byte `i`.
pub open spec fn occurs_at(b: Seq<u8>, q: Seq<u8>, i: int) -> bool {
    0 <= i && i + q.len() <= b.len() && b.subrange(i, i + q.len()) == q
}

/// The first `i >= from` at which `q` occurs in `b`.
pub open spec fn first_match(b: Seq<u8>, q: Seq<u8>, from: int) -> Option<int>
    decreases b.len() + 1 - from,
{
    if from < 0 || from + q.len() > b.len() {
        None
    } else if occurs_at(b, q, from) {
        Some(from)
    } else {
        first_match(b, q, from + 1)
    }
}

/// The number of non-overlapping occurrences of a non-empty `q` in `b` from
/// `i` on, taken left to right (what `str::matches(..).count()` counts).
pub open spec fn count_matches(b: Seq<u8>, q: Seq<u8>, i: int) -> nat
    decreases b.len() - i,
{
    if i < 0 || q.len() == 0 || i + q.len() > b.len() {
        0
    } else if occurs_at(b, q, i) {
        1 + count_matches(b, q, i + q.len())
    } else {
        count_matches(b, q, i + 1)
    }
}

/// Where the next search starts: just past the last match when that is
/// still inside the text, else at the start.
pub open spec fn search_start(last: Option<usize>, qlen: int, blen: int) -> int {
    match last {
        Some(p) => if p + qlen < blen {
            p + qlen
        } else {
            0
        },
        None => 0,
    }
}

/// The end of the wrapped search, one byte before the search start.
pub open spec fn wrap_end(from: int) -> int {
    if from > 0 {
        from - 1
    } else {
        0
    }
}

pub struct FindState {
    pub query: String,
    pub match_count: usize,
    pub last_pos: Option<usize>,
}

impl FindState {
    /// The last match lies within what a string can hold.
    pub open spec fn wf(&self) -> bool {
        &&& utf8(self.query@).len() <= isize::MAX
        &&& (self.last_pos matches Some(p) ==> p <= isize::MAX)
    }

    /// The bytes of the search that `find_next` makes on `b` cut at valid
    /// places: the search start, and (when nothing lies after it and the
    /// text is not empty) the end of the wrapped search.
    pub open spec fn cuts_ok(&self, b: Seq<u8>) -> bool {
        let q = utf8(self.query@);
        let from = search_start(self.last_pos, q.len() as int, b.len() as int);
        q.len() > 0 ==> {
            &&& is_boundary(b, from)
            &&& (first_match(b, q, from) is None && b.len() > 0 ==> is_boundary(b, wrap_end(from)))
        }
    }

    /// Search `buffer` for the query from just past the last match; on a
    /// hit, move the cursor there and recount the matches in the whole text.
    /// On a miss, search the text before that point instead (keeping the
    /// count); when that misses too, forget the last match and zero the
    /// count. An empty query zeroes the count and does nothing else.
    pub fn find_next(&mut self, buffer: &mut TextBuffer)
        requires
            old(self).wf(),
            old(buffer).wf(),
            old(self).cuts_ok(old(buffer).bytes()),
        ensures
            final(self).wf(),
            final(buffer).wf(),
            final(buffer).text == old(buffer).text,
            final(buffer).same_meta(old(buffer)),
            final(self).query == old(self).query,
            ({
                let b = old(buffer).bytes();
                let q = utf8(old(self).query@);
                let from = search_start(old(self).last_pos, q.len() as int, b.len() as int);
                let wrapped = first_match(b.take(wrap_end(from)), q, 0);
                if q.len() == 0 {
                    &&& final(self).match_count == 0
                    &&& final(self).last_pos == old(self).last_pos
                    &&& *final(buffer) == *old(buffer)
                } else if let Some(p) = first_match(b, q, from) {
                    &&& final(self).last_pos == Some(p as usize)
                    &&& final(self).match_count == count_matches(b, q, 0)
                    &&& final(buffer).placed_at(p)
                } else if b.len() == 0 {
                    &&& final(self).match_count == old(self).match_count
                    &&& final(self).last_pos == old(self).last_pos
                    &&& *final(buffer) == *old(buffer)
                } else if let Some(p) = wrapped {
                    &&& final(self).last_pos == Some(p as usize)
                    &&& final(self).match_count == old(self).match_count
                    &&& final(buffer).placed_at(p)
                } else {
                    &&& final(self).last_pos is None
                    &&& final(self).match_count == 0
                    &&& *final(buffer) == *old(buffer)
                }
            }),
    {
        let qb = self.query.as_str().as_bytes();
        if qb.len() == 0 {
            self.match_count = 0;
            return;
        }
        let b = buffer.text.as_str().as_bytes();
        let n = b.len();
        let from = match self.last_pos {
            Some(pos) => if pos + qb.len() < n {
                pos + qb.len()
            } else {
                0
            },
            None => 0,
        };
        match first_match_exec(b, n, qb, from) {
            Some(p) => {
                assert(b@.take(n as int) == b@);
                let count = count_matches_exec(b, qb);
                self.last_pos = Some(p);
                self.match_count = count;
                proof {
                    lemma_first_match_bounds(b@, qb@, from as int);
                    lemma_match_is_boundary(b@, qb@, p as int);
                }
                buffer.set_cursor(p);
            },
            None => {
                assert(b@.take(n as int) == b@);
                if n > 0 {
                    let end = if from > 0 {
                        from - 1
                    } else {
                        0
                    };
                    match first_match_exec(b, end, qb, 0) {
                        Some(p) => {
                            self.last_pos = Some(p);
                            proof {
                                lemma_first_match_bounds(b@.take(end as int), qb@, 0);
                                lemma_match_is_boundary(b@.take(end as int), qb@, p as int);
                                assert(b@.take(end as int)[p as int] == b@[p as int]);
                            }
                            buffer.set_cursor(p);
                        },
                        None => {
                            self.last_pos = None;
                            self.match_count = 0;
                        },
                    }
                }
            },
        }
    }

    /// Forget the last match and the count.
    pub fn reset(&mut self)
        ensures
            final(self).query == old(self).query,
            final(self).match_count == 0,
            final(self).last_pos is None,
    {
        self.match_count = 0;
        self.last_pos = None;
    }
}

impl Default for FindState {
    fn default() -> (f: Self)
        ensures
            f.query@ == Seq::<char>::empty(),
            f.match_count == 0,
            f.last_pos is None,
    {
        FindState { query: String::new(), match_count: 0, last_pos: None }
    }
}

/// A match of valid UTF-8 `q` inside valid UTF-8 `b` starts a character.
proof fn lemma_match_is_boundary(b: Seq<u8>, q: Seq<u8>, p: int)
    requires
        vstd::utf8::valid_utf8(q),
        q.len() > 0,
        occurs_at(b, q, p),
    ensures
        is_boundary(b, p),
{
    vstd::utf8::is_char_boundary_start_end_of_seq(q);
    vstd::utf8::is_char_boundary_iff_not_is_continuation_byte(q, 0);
    assert(b.subrange(p, p + q.len())[0] == b[p]);
}

proof fn lemma_first_match_bounds(b: Seq<u8>, q: Seq<u8>, from: int)
    ensures
        first_match(b, q, from) matches Some(p) ==> from <= p && occurs_at(b, q, p),
    decreases b.len() + 1 - from,
{
    if !(from < 0 || from + q.len() > b.len()) && !occurs_at(b, q, from) {
        lemma_first_match_bounds(b, q, from + 1);
    }
}

/// What a search from `from` finds is an occurrence of the query, at or
/// after `from`, with none between `from` and it; when it finds nothing,
/// there is no occurrence at or after `from`.
pub proof fn lemma_first_match_is_first(b: Seq<u8>, q: Seq<u8>, from: int)
    requires
        0 <= from,
    ensures
        first_match(b, q, from) matches Some(p) ==> {
            &&& from <= p
            &&& occurs_at(b, q, p)
            &&& forall|j: int| from <= j < p ==> !occurs_at(b, q, j)
        },
        first_match(b, q, from) is None ==> forall|j: int| from <= j ==> !occurs_at(b, q, j),
    decreases b.len() + 1 - from,
{
    if !(from + q.len() > b.len()) && !occurs_at(b, q, from) {
        lemma_first_match_is_first(b, q, from + 1);
    }
}

/// The wrapped search finds the first occurrence that lies wholly before
/// the byte just ahead of the search start: when the query occurs at `i`
/// ending before `from - 1`, and nowhere so earlier, a search of
/// `b[..wrap_end(from)]` finds it at `i`. So after a miss at and past the
/// search start, `find_next` moves to the earliest occurrence in the text
/// before it whenever there is one.
pub proof fn lemma_wrap_finds_earliest(b: Seq<u8>, q: Seq<u8>, from: int, i: int)
    requires
        q.len() > 0,
        0 < from <= b.len(),
        occurs_at(b, q, i),
        i + q.len() <= from - 1,
        forall|j: int| 0 <= j < i && j + q.len() <= from - 1 ==> !occurs_at(b, q, j),
    ensures
        first_match(b.take(wrap_end(from)), q, 0) == Some(i),
{
    let w = b.take(wrap_end(from));
    assert(w.len() == from - 1);
    assert(w.subrange(i, i + q.len()) == b.subrange(i, i + q.len()));
    assert(occurs_at(w, q, i));
    assert forall|j: int| 0 <= j < i implies !occurs_at(w, q, j) by {
        if occurs_at(w, q, j) {
            assert(w.subrange(j, j + q.len()) == b.subrange(j, j + q.len()));
            assert(occurs_at(b, q, j));
        }
    }
    lemma_first_match_from(w, q, 0, i);
}

proof fn lemma_first_match_from(b: Seq<u8>, q: Seq<u8>, from: int, i: int)
    requires
        0 <= from <= i,
        occurs_at(b, q, i),
        forall|j: int| from <= j < i ==> !occurs_at(b, q, j),
    ensures
        first_match(b, q, from) == Some(i),
    decreases i - from,
{
    if from < i {
        assert(!occurs_at(b, q, from));
        lemma_first_match_from(b, q, from + 1, i);
    }
}

/// `q` matches `b[..end]` at `i`.
fn occurs_at_exec(b: &[u8], end: usize, q: &[u8], i: usize) -> (r: bool)
    requires
        end <= b@.len(),
        i + q@.len() <= end,
    ensures
        r == occurs_at(b@.take(end as int), q@, i as int),
{
    let mut k: usize = 0;
    while k < q.len()
        invariant
            end <= b@.len(),
            i + q@.len() <= end,
            k <= q@.len(),
            forall|j: int| 0 <= j < k ==> b@[i + j] == q@[j],
        decreases q.len() - k,
    {
        if b[i + k] != q[k] {
            assert(b@.take(end as int).subrange(i as int, i + q@.len())[k as int] != q@[k as int]);
            return false;
        }
        k += 1;
    }
    assert(b@.take(end as int).subrange(i as int, i + q@.len()) == q@);
    true
}

/// `first_match(b[..end], q, from)`.
fn first_match_exec(b: &[u8], end: usize, q: &[u8], from: usize) -> (r: Option<usize>)
    requires
        end <= b@.len() <= isize::MAX,
        0 < q@.len() <= isize::MAX,
    ensures
        r matches Some(p) ==> first_match(b@.take(end as int), q@, from as int) == Some(p as int),
        r is None ==> first_match(b@.take(end as int), q@, from as int) is None,
{
    let ghost t = b@.take(end as int);
    let mut i = from;
    if from > end || end - from < q.len() {
        return None;
    }
    while i + q.len() <= end
        invariant
            end <= b@.len() <= isize::MAX,
            0 < q@.len() <= isize::MAX,
            t == b@.take(end as int),
            from <= i <= end,
            first_match(t, q@, i as int) == first_match(t, q@, from as int),
        decreases end - i,
    {
        if occurs_at_exec(b, end, q, i) {
            return Some(i);
        }
        i += 1;
    }
    None
}

/// `count_matches(b, q, 0)` for non-empty `q`.
fn count_matches_exec(b: &[u8], q: &[u8]) -> (c: usize)
    requires
        0 < q@.len() <= isize::MAX,
        b@.len() <= isize::MAX,
    ensures
        c == count_matches(b@, q@, 0),
{
    let n = b.len();
    let mut i: usize = 0;
    let mut c: usize = 0;
    assert(b@.take(n as int) == b@);
    while i + q.len() <= n
        invariant
            n == b@.len() <= isize::MAX,
            0 < q@.len() <= isize::MAX,
            b@.take(n as int) == b@,
            c <= i <= n,
            c + count_matches(b@, q@, i as int) == count_matches(b@, q@, 0),
        decreases n - i,
    {
        if occurs_at_exec(b, n, q, i) {
            c += 1;
            i += q.len();
        } else {
            i += 1;
        }
    }
    c
}

} // verus!
