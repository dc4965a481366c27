//! A text buffer with a byte-offset cursor (the cursor sits between UTF-8
//! encoded characters), line/column tracking, and editing commands.
//!
//! Contracts speak of the UTF-8 bytes of the text, `utf8(text@)`, since the
//! cursor and every edit position are byte offsets.
use vstd::prelude::*;
use vstd::utf8::{encode_utf8, is_char_boundary, is_continuation_byte, length_of_last_scalar, valid_utf8};
use crate::text;

verus! {

broadcast use vstd::utf8::encode_utf8_valid_utf8;

// ---------------------------------------------------------------------------
// Byte-level model
// ---------------------------------------------------------------------------

/// The UTF-8 bytes of a character sequence.
pub open spec fn utf8(s: Seq<char>) -> Seq<u8> {
    encode_utf8(s)
}

/// `o` is a character boundary of the UTF-8 bytes `b`: the end, or a byte
/// that starts a character.
pub open spec fn is_boundary(b: Seq<u8>, o: int) -> bool {
    0 <= o <= b.len() && (o == b.len() || !is_continuation_byte(b[o]))
}

/// `b` with `b[lo..hi]` replaced by `ins`.
pub open spec fn edited(b: Seq<u8>, lo: int, hi: int, ins: Seq<u8>) -> Seq<u8> {
    b.take(lo) + ins + b.skip(hi)
}

/// Line and column (both from 1) after the bytes `p`: each newline starts
/// a new line; every character (counted at its leading byte) advances the
/// column.
pub open spec fn line_col(p: Seq<u8>) -> (int, int)
    decreases p.len(),
{
    if p.len() == 0 {
        (1, 1)
    } else {
        let (l, c) = line_col(p.drop_last());
        if p.last() == 0x0Au8 {
            (l + 1, 1)
        } else if is_continuation_byte(p.last()) {
            (l, c)
        } else {
            (l, c + 1)
        }
    }
}

/// Where `cursor_left`/`delete_backward` move from `o > 0`: back by the width
/// of the character before the one that ends at `o`, or by one byte when only
/// one character precedes `o`.
pub open spec fn previous_offset(b: Seq<u8>, o: int) -> int {
    let p = b.take(o);
    let q = p.take(o - length_of_last_scalar(p));
    if q.len() == 0 {
        o - 1
    } else {
        o - length_of_last_scalar(q)
    }
}

/// The first character boundary at or after `p`: `p` itself when it starts
/// a character, else the first later byte that does, else the end.
pub open spec fn boundary_from(b: Seq<u8>, p: int) -> int
    decreases b.len() - p,
{
    if p >= b.len() {
        b.len() as int
    } else if !is_continuation_byte(b[p]) {
        p
    } else {
        boundary_from(b, p + 1)
    }
}

/// The offset after the character that starts at `o < b.len()`.
pub open spec fn next_offset(b: Seq<u8>, o: int) -> int {
    boundary_from(b, o + 1)
}

/// Start of the line holding offset `o`: just after the last newline before `o`.
pub open spec fn line_start(b: Seq<u8>, o: int) -> int
    decreases o,
{
    if o <= 0 {
        0
    } else if b[o - 1] == 0x0Au8 {
        o
    } else {
        line_start(b, o - 1)
    }
}

/// End of the line holding offset `o`: the first newline at or after `o`,
/// or the end of the text.
pub open spec fn line_end(b: Seq<u8>, o: int) -> int
    decreases b.len() - o,
{
    if o >= b.len() {
        b.len() as int
    } else if b[o] == 0x0Au8 {
        o
    } else {
        line_end(b, o + 1)
    }
}

/// The vertical-move scan over the bytes from `p`, tracking the current
/// line and the offset where it starts. Once the line number exceeds
/// `after_line`, it stops at the first character whose byte column
/// (`p - start + 1`) reaches `want_col`, or at a newline. Passing a one-byte
/// final character moves the fallback `cur` to the end of the text.
pub open spec fn vertical_scan(
    b: Seq<u8>,
    p: int,
    line: int,
    start: int,
    after_line: int,
    want_col: int,
    cur: int,
) -> int
    decreases b.len() - p,
{
    if p >= b.len() || p < 0 {
        cur
    } else if is_continuation_byte(b[p]) {
        vertical_scan(b, p + 1, line, start, after_line, want_col, cur)
    } else if line > after_line && (p - start + 1 >= want_col || b[p] == 0x0Au8) {
        p
    } else {
        let nl = b[p] == 0x0Au8;
        vertical_scan(
            b,
            p + 1,
            if nl {
                line + 1
            } else {
                line
            },
            if nl {
                p + 1
            } else {
                start
            },
            after_line,
            want_col,
            if p == b.len() - 1 {
                b.len() as int
            } else {
                cur
            },
        )
    }
}

/// Where a vertical move from `cursor` lands: the scan from the start of the
/// text, on line 1, with `cursor` as the fallback.
pub open spec fn vertical_target(b: Seq<u8>, after_line: int, want_col: int, cursor: int) -> int {
    vertical_scan(b, 0, 1, 0, after_line, want_col, cursor)
}

/// The text as it reads at `now` seconds after the Unix epoch, in the form
/// `HH:MM:SS DD/MM/2026`, with the day and month counted the simple way
/// (a month of 30 days, a day of the month from 1 to 31).
pub open spec fn time_date_text(now: int) -> Seq<char> {
    text::two_digits((now / 3600) % 24) + seq![':'] + text::two_digits((now / 60) % 60) + seq![':']
        + text::two_digits(now % 60) + seq![' '] + text::two_digits((now / 86400) % 31 + 1)
        + seq!['/'] + text::two_digits((now / 86400 / 30) % 12 + 1) + seq!['/', '2', '0', '2', '6']
}

proof fn lemma_boundary_is_char_boundary(b: Seq<u8>, o: int)
    requires
        valid_utf8(b),
        is_boundary(b, o),
    ensures
        is_char_boundary(b, o),
{
    vstd::utf8::is_char_boundary_start_end_of_seq(b);
    if o < b.len() {
        vstd::utf8::is_char_boundary_iff_not_is_continuation_byte(b, o);
    }
}

proof fn lemma_edited_valid(b: Seq<u8>, lo: int, hi: int, ins: Seq<u8>)
    requires
        valid_utf8(b),
        valid_utf8(ins),
        lo <= hi,
        is_boundary(b, lo),
        is_boundary(b, hi),
    ensures
        valid_utf8(edited(b, lo, hi, ins)),
{
    lemma_boundary_is_char_boundary(b, lo);
    lemma_boundary_is_char_boundary(b, hi);
    vstd::utf8::valid_utf8_split(b, lo);
    vstd::utf8::valid_utf8_split(b, hi);
    assert(b.take(lo) == b.subrange(0, lo));
    assert(b.skip(hi) == b.subrange(hi, b.len() as int));
    vstd::utf8::valid_utf8_concat(b.take(lo), ins);
    vstd::utf8::valid_utf8_concat(b.take(lo) + ins, b.skip(hi));
}

/// The first byte of valid non-empty UTF-8 starts a character.
proof fn lemma_first_byte_leading(b: Seq<u8>)
    requires
        valid_utf8(b),
        b.len() > 0,
    ensures
        !is_continuation_byte(b[0]),
{
    vstd::utf8::is_char_boundary_start_end_of_seq(b);
    vstd::utf8::is_char_boundary_iff_not_is_continuation_byte(b, 0);
}

/// In valid UTF-8, the byte after an ASCII byte starts a character.
proof fn lemma_after_ascii_is_boundary(b: Seq<u8>, o: int)
    requires
        valid_utf8(b),
        0 < o <= b.len(),
        b[o - 1] < 0x80,
    ensures
        is_boundary(b, o),
{
    if o < b.len() {
        vstd::utf8::is_char_boundary_iff_not_is_continuation_byte(b, o - 1);
        vstd::utf8::valid_utf8_split(b, o - 1);
        let t = b.subrange(o - 1, b.len() as int);
        assert(t[0] == b[o - 1]);
        assert(vstd::utf8::length_of_first_scalar(t) == 1);
        assert(vstd::utf8::pop_first_scalar(t) == b.subrange(o, b.len() as int));
        lemma_first_byte_leading(b.subrange(o, b.len() as int));
        assert(b.subrange(o, b.len() as int)[0] == b[o]);
    }
}

proof fn lemma_boundary_from(b: Seq<u8>, p: int)
    requires
        0 <= p,
    ensures
        p <= boundary_from(b, p) || p > b.len(),
        boundary_from(b, p) <= b.len(),
        is_boundary(b, boundary_from(b, p)) || p > b.len(),
    decreases b.len() - p,
{
    if p < b.len() && is_continuation_byte(b[p]) {
        lemma_boundary_from(b, p + 1);
    }
}

proof fn lemma_line_start(b: Seq<u8>, o: int)
    requires
        0 <= o <= b.len(),
    ensures
        0 <= line_start(b, o) <= o,
        line_start(b, o) == 0 || b[line_start(b, o) - 1] == 0x0Au8,
    decreases o,
{
    if o > 0 && b[o - 1] != 0x0Au8 {
        lemma_line_start(b, o - 1);
    }
}

proof fn lemma_line_end(b: Seq<u8>, o: int)
    requires
        0 <= o <= b.len(),
    ensures
        o <= line_end(b, o) <= b.len(),
        is_boundary(b, line_end(b, o)),
    decreases b.len() - o,
{
    if o < b.len() && b[o] != 0x0Au8 {
        lemma_line_end(b, o + 1);
    }
}

proof fn lemma_vertical_scan(
    b: Seq<u8>,
    p: int,
    line: int,
    start: int,
    after_line: int,
    want_col: int,
    cur: int,
)
    requires
        0 <= p,
        is_boundary(b, cur),
    ensures
        is_boundary(b, vertical_scan(b, p, line, start, after_line, want_col, cur)),
    decreases b.len() - p,
{
    if p < b.len() {
        if is_continuation_byte(b[p]) {
            lemma_vertical_scan(b, p + 1, line, start, after_line, want_col, cur);
        } else if line > after_line && (p - start + 1 >= want_col || b[p] == 0x0Au8) {
        } else {
            let nl = b[p] == 0x0Au8;
            lemma_vertical_scan(
                b,
                p + 1,
                if nl {
                    line + 1
                } else {
                    line
                },
                if nl {
                    p + 1
                } else {
                    start
                },
                after_line,
                want_col,
                if p == b.len() - 1 {
                    b.len() as int
                } else {
                    cur
                },
            );
        }
    }
}

// ---------------------------------------------------------------------------
// Byte helpers
// ---------------------------------------------------------------------------

/// Builds a `String` from bytes (`String::from_utf8`); `None` when the bytes
/// are not valid UTF-8.
#[verifier::external_body]
fn string_from_utf8(bytes: Vec<u8>) -> (r: Option<String>)
    ensures
        r is Some <==> valid_utf8(bytes@),
        r matches Some(s) ==> encode_utf8(s@) == bytes@,
{
    String::from_utf8(bytes).ok()
}

fn bytes_of(s: &String) -> (b: &[u8])
    ensures
        b@ == utf8(s@),
{
    s.as_str().as_bytes()
}

/// `b[lo..hi]` replaced by `ins`, as a new string.
fn splice(b: &[u8], lo: usize, hi: usize, ins: &[u8]) -> (s: String)
    requires
        valid_utf8(b@),
        valid_utf8(ins@),
        lo <= hi,
        is_boundary(b@, lo as int),
        is_boundary(b@, hi as int),
    ensures
        utf8(s@) == edited(b@, lo as int, hi as int, ins@),
{
    let mut out: Vec<u8> = Vec::new();
    let mut i: usize = 0;
    while i < lo
        invariant
            i <= lo <= b@.len(),
            out@ == b@.take(i as int),
        decreases lo - i,
    {
        out.push(b[i]);
        i += 1;
        assert(out@ == b@.take(i as int));
    }
    let mut j: usize = 0;
    while j < ins.len()
        invariant
            j <= ins@.len(),
            out@ == b@.take(lo as int) + ins@.take(j as int),
        decreases ins.len() - j,
    {
        out.push(ins[j]);
        j += 1;
        assert(out@ == b@.take(lo as int) + ins@.take(j as int));
    }
    assert(ins@.take(ins@.len() as int) == ins@);
    let mut k: usize = hi;
    while k < b.len()
        invariant
            hi <= k <= b@.len(),
            out@ == b@.take(lo as int) + ins@ + b@.subrange(hi as int, k as int),
        decreases b.len() - k,
    {
        out.push(b[k]);
        k += 1;
        assert(out@ == b@.take(lo as int) + ins@ + b@.subrange(hi as int, k as int));
    }
    assert(b@.subrange(hi as int, b@.len() as int) == b@.skip(hi as int));
    proof {
        lemma_edited_valid(b@, lo as int, hi as int, ins@);
    }
    match string_from_utf8(out) {
        Some(s) => s,
        None => {
            assert(false);
            String::new()
        },
    }
}

fn boundary_at(b: &[u8], o: usize) -> (r: bool)
    ensures
        r == is_boundary(b@, o as int),
{
    o <= b.len() && (o == b.len() || !(0x80 <= b[o] && b[o] <= 0xbf))
}

/// `length_of_last_scalar(b[..end])`.
fn last_scalar_len(b: &[u8], end: usize) -> (n: usize)
    requires
        0 < end <= b@.len(),
        valid_utf8(b@.take(end as int)),
    ensures
        n == length_of_last_scalar(b@.take(end as int)),
        1 <= n <= end,
{
    let ghost p = b@.take(end as int);
    proof {
        lemma_first_byte_leading(p);
    }
    if !(0x80 <= b[end - 1] && b[end - 1] <= 0xbf) {
        1
    } else if !(0x80 <= b[end - 2] && b[end - 2] <= 0xbf) {
        2
    } else if !(0x80 <= b[end - 3] && b[end - 3] <= 0xbf) {
        3
    } else {
        assert(end >= 4);
        4
    }
}

// ---------------------------------------------------------------------------
// The buffer
// ---------------------------------------------------------------------------

pub struct TextBuffer {
    pub text: String,
    pub saved_text: String,
    pub file_path: Option<String>,
    pub cursor_offset: usize,
    pub cursor_line: usize,
    pub cursor_col: usize,
    pub word_wrap: bool,
    pub error_msg: String,
}

impl TextBuffer {
    /// The text as last loaded or saved.
    pub open spec fn saved(&self) -> Seq<char> {
        self.saved_text@
    }

    /// The pending error message (empty when none).
    pub open spec fn error_text(&self) -> Seq<char> {
        self.error_msg@
    }

    /// The text differs from the saved snapshot.
    pub open spec fn dirty(&self) -> bool {
        self.text@ != self.saved()
    }

    /// The UTF-8 bytes of the text.
    pub open spec fn bytes(&self) -> Seq<u8> {
        utf8(self.text@)
    }

    /// Well-formed: the cursor is on a character boundary of a text that is
    /// shorter than `isize::MAX` bytes.
    pub open spec fn wf(&self) -> bool {
        &&& self.bytes().len() <= isize::MAX
        &&& is_boundary(self.bytes(), self.cursor_offset as int)
    }

    /// The cursor is at byte `o` with line and column recomputed for it.
    pub open spec fn placed_at(&self, o: int) -> bool {
        &&& self.cursor_offset == o
        &&& line_col(self.bytes().take(o)) == (self.cursor_line as int, self.cursor_col as int)
    }

    /// Everything but the text and cursor is as in `other`.
    pub open spec fn same_meta(&self, other: &TextBuffer) -> bool {
        &&& self.saved() == other.saved()
        &&& self.file_path == other.file_path
        &&& self.word_wrap == other.word_wrap
        &&& self.error_text() == other.error_text()
    }

    /// An empty, unnamed buffer with the cursor at line 1, column 1.
    pub fn new() -> (b: Self)
        ensures
            b.wf(),
            b.text@ == Seq::<char>::empty(),
            b.saved() == Seq::<char>::empty(),
            b.file_path is None,
            b.placed_at(0),
            !b.word_wrap,
            b.error_text() == Seq::<char>::empty(),
    {
        TextBuffer {
            text: String::new(),
            saved_text: String::new(),
            file_path: None,
            cursor_offset: 0,
            cursor_line: 1,
            cursor_col: 1,
            word_wrap: false,
            error_msg: String::new(),
        }
    }

    /// A clean buffer holding `s`, cursor at the start.
    pub fn from_string(s: String) -> (b: Self)
        requires
            utf8(s@).len() <= isize::MAX,
        ensures
            b.wf(),
            b.text@ == s@,
            b.saved() == s@,
            b.file_path is None,
            b.placed_at(0),
            !b.word_wrap,
            b.error_text() == Seq::<char>::empty(),
    {
        let saved = s.clone();
        let mut buf = TextBuffer {
            text: s,
            saved_text: saved,
            file_path: None,
            cursor_offset: 0,
            cursor_line: 1,
            cursor_col: 1,
            word_wrap: false,
            error_msg: String::new(),
        };
        buf.recalc_cursor();
        buf
    }

    /// A clean buffer holding `content` loaded from `path`.
    pub fn from_loaded(path: String, content: String) -> (b: Self)
        requires
            utf8(content@).len() <= isize::MAX,
        ensures
            b.wf(),
            b.text@ == content@,
            b.saved() == content@,
            b.file_path == Some(path),
            b.placed_at(0),
            !b.word_wrap,
            b.error_text() == Seq::<char>::empty(),
    {
        let mut buf = Self::from_string(content);
        buf.file_path = Some(path);
        buf
    }

    /// The text differs from what was last loaded or saved.
    pub fn is_dirty(&self) -> (d: bool)
        ensures
            d == self.dirty(),
    {
        !(self.text == self.saved_text)
    }

    /// The pending error message.
    pub fn error(&self) -> (e: &str)
        ensures
            e@ == self.error_text(),
    {
        self.error_msg.as_str()
    }

    /// Forget the pending error message.
    pub fn clear_error(&mut self)
        ensures
            final(self).error_text() == Seq::<char>::empty(),
            final(self).text == old(self).text,
            final(self).saved() == old(self).saved(),
            final(self).file_path == old(self).file_path,
            final(self).cursor_offset == old(self).cursor_offset,
            final(self).cursor_line == old(self).cursor_line,
            final(self).cursor_col == old(self).cursor_col,
            final(self).word_wrap == old(self).word_wrap,
    {
        self.error_msg = String::new();
    }

    /// Record that the text was written to `path`: it becomes the saved text
    /// and the file name, and the error clears.
    pub fn mark_saved(&mut self, path: String)
        ensures
            final(self).saved() == old(self).text@,
            final(self).file_path == Some(path),
            final(self).error_text() == Seq::<char>::empty(),
            final(self).text == old(self).text,
            final(self).cursor_offset == old(self).cursor_offset,
            final(self).cursor_line == old(self).cursor_line,
            final(self).cursor_col == old(self).cursor_col,
            final(self).word_wrap == old(self).word_wrap,
    {
        self.saved_text = self.text.clone();
        self.file_path = Some(path);
        self.error_msg = String::new();
    }

    /// Record a failed save.
    pub fn set_error(&mut self, msg: String)
        ensures
            final(self).error_text() == msg@,
            final(self).text == old(self).text,
            final(self).saved() == old(self).saved(),
            final(self).file_path == old(self).file_path,
            final(self).cursor_offset == old(self).cursor_offset,
            final(self).cursor_line == old(self).cursor_line,
            final(self).cursor_col == old(self).cursor_col,
            final(self).word_wrap == old(self).word_wrap,
    {
        self.error_msg = msg;
    }

    /// Start a new, empty, unnamed document.
    pub fn new_file(&mut self)
        ensures
            final(self).wf(),
            final(self).text@ == Seq::<char>::empty(),
            final(self).saved() == Seq::<char>::empty(),
            final(self).file_path is None,
            final(self).error_text() == Seq::<char>::empty(),
            final(self).placed_at(0),
            final(self).word_wrap == old(self).word_wrap,
    {
        self.text = String::new();
        self.saved_text = String::new();
        self.file_path = None;
        self.error_msg = String::new();
        self.cursor_offset = 0;
        self.cursor_line = 1;
        self.cursor_col = 1;
    }

    /// Recompute line and column for the cursor.
    fn recalc_cursor(&mut self)
        requires
            old(self).wf(),
        ensures
            final(self).wf(),
            final(self).text == old(self).text,
            final(self).same_meta(old(self)),
            final(self).placed_at(old(self).cursor_offset as int),
    {
        let limit = self.cursor_offset;
        let b = bytes_of(&self.text);
        let mut line: usize = 1;
        let mut col: usize = 1;
        let mut i: usize = 0;
        while i < limit
            invariant
                i <= limit <= b@.len() <= isize::MAX,
                b@ == utf8(self.text@),
                line_col(b@.take(i as int)) == (line as int, col as int),
                line + col <= i + 2,
                line >= 1,
                col >= 1,
            decreases limit - i,
        {
            let x = b[i];
            assert(b@.take(i + 1).drop_last() == b@.take(i as int));
            if x == 0x0A {
                line += 1;
                col = 1;
            } else if 0x80 <= x && x <= 0xbf {
            } else {
                col += 1;
            }
            i += 1;
        }
        self.cursor_line = line;
        self.cursor_col = col;
    }

    /// Replace `bytes[lo..hi]` with `ins` and put the cursor at `cursor`.
    fn replace_range(&mut self, lo: usize, hi: usize, ins: &str, cursor: usize)
        requires
            old(self).wf(),
            lo <= hi,
            is_boundary(old(self).bytes(), lo as int),
            is_boundary(old(self).bytes(), hi as int),
            edited(old(self).bytes(), lo as int, hi as int, utf8(ins@)).len() <= isize::MAX,
            is_boundary(edited(old(self).bytes(), lo as int, hi as int, utf8(ins@)), cursor as int),
        ensures
            final(self).wf(),
            final(self).bytes() == edited(old(self).bytes(), lo as int, hi as int, utf8(ins@)),
            final(self).placed_at(cursor as int),
            final(self).same_meta(old(self)),
    {
        let b = bytes_of(&self.text);
        let ib = ins.as_bytes();
        let s = splice(b, lo, hi, ib);
        self.text = s;
        self.cursor_offset = cursor;
        self.recalc_cursor();
    }

    /// Insert `ch` at the cursor and move the cursor past it.
    pub fn insert_char(&mut self, ch: char)
        requires
            old(self).wf(),
            old(self).bytes().len() + utf8(seq![ch]).len() <= isize::MAX,
        ensures
            final(self).wf(),
            final(self).bytes() == edited(
                old(self).bytes(),
                old(self).cursor_offset as int,
                old(self).cursor_offset as int,
                utf8(seq![ch]),
            ),
            final(self).placed_at(old(self).cursor_offset + utf8(seq![ch]).len()),
            final(self).same_meta(old(self)),
    {
        let mut s = String::new();
        text::push_char(&mut s, ch);
        assert(s@ == seq![ch]);
        self.insert_str(s.as_str());
    }

    /// Insert `s` at the cursor and move the cursor past it.
    pub fn insert_str(&mut self, s: &str)
        requires
            old(self).wf(),
            old(self).bytes().len() + utf8(s@).len() <= isize::MAX,
        ensures
            final(self).wf(),
            final(self).bytes() == edited(
                old(self).bytes(),
                old(self).cursor_offset as int,
                old(self).cursor_offset as int,
                utf8(s@),
            ),
            final(self).placed_at(old(self).cursor_offset + utf8(s@).len()),
            final(self).same_meta(old(self)),
    {
        let o = self.cursor_offset;
        let n = s.as_bytes().len();
        proof {
            let b = old(self).bytes();
            let e = edited(b, o as int, o as int, utf8(s@));
            assert(e.take(o + n) == b.take(o as int) + utf8(s@));
            lemma_edited_valid(b, o as int, o as int, utf8(s@));
            if o + n < e.len() {
                assert(e[o + n] == b[o as int]);
            }
        }
        self.replace_range(o, o, s, o + n);
    }

    /// Where the cursor lands when stepping left from `cursor_offset > 0`.
    fn previous_boundary(&self) -> (p: usize)
        requires
            self.wf(),
            self.cursor_offset > 0,
        ensures
            p == previous_offset(self.bytes(), self.cursor_offset as int),
            p < self.cursor_offset,
    {
        let o = self.cursor_offset;
        let b = bytes_of(&self.text);
        proof {
            lemma_boundary_is_char_boundary(b@, o as int);
            vstd::utf8::valid_utf8_split(b@, o as int);
            assert(b@.take(o as int) == b@.subrange(0, o as int));
        }
        let last = last_scalar_len(b, o);
        let rest = o - last;
        if rest == 0 {
            assert(b@.take(o as int).take(0).len() == 0);
            o - 1
        } else {
            proof {
                let p = b@.take(o as int);
                vstd::utf8::valid_utf8_last(p);
                assert(p.take(rest as int) == b@.take(rest as int));
            }
            proof {
                let p = b@.take(o as int);
                lemma_last_scalar_start(p);
                vstd::utf8::valid_utf8_split(p, rest as int);
                assert(p.subrange(0, rest as int) == b@.take(rest as int));
            }
            let w = last_scalar_len(b, rest);
            assert(b@.take(o as int).take(rest as int) == b@.take(rest as int));
            o - w
        }
    }

    /// The offset after the character at the cursor (`cursor_offset < len`).
    fn next_boundary(&self) -> (p: usize)
        requires
            self.wf(),
            self.cursor_offset < self.bytes().len(),
        ensures
            p == next_offset(self.bytes(), self.cursor_offset as int),
            is_boundary(self.bytes(), p as int),
            p > self.cursor_offset,
    {
        let b = bytes_of(&self.text);
        let mut p = self.cursor_offset + 1;
        proof {
            lemma_boundary_from(b@, p as int);
        }
        while p < b.len() && 0x80 <= b[p] && b[p] <= 0xbf
            invariant
                self.cursor_offset < p <= b@.len(),
                boundary_from(b@, p as int) == next_offset(b@, self.cursor_offset as int),
            decreases b.len() - p,
        {
            p += 1;
        }
        proof {
            lemma_boundary_from(b@, p as int);
        }
        p
    }

    /// The vertical-move target for the current text and cursor.
    fn vertical_target_exec(&self, after_line: usize, want_col: usize) -> (t: usize)
        requires
            self.wf(),
        ensures
            t == vertical_target(self.bytes(), after_line as int, want_col as int, self.cursor_offset as int),
            is_boundary(self.bytes(), t as int),
    {
        let b = bytes_of(&self.text);
        let n = b.len();
        let mut p: usize = 0;
        let mut line: usize = 1;
        let mut start: usize = 0;
        let mut cur: usize = self.cursor_offset;
        proof {
            lemma_vertical_scan(b@, 0, 1, 0, after_line as int, want_col as int, cur as int);
        }
        while p < n
            invariant
                n == b@.len() <= isize::MAX,
                b@ == self.bytes(),
                p <= n,
                start <= p,
                1 <= line <= p + 1,
                is_boundary(b@, cur as int),
                vertical_scan(b@, p as int, line as int, start as int, after_line as int, want_col as int, cur as int)
                    == vertical_target(b@, after_line as int, want_col as int, self.cursor_offset as int),
            decreases n - p,
        {
            let x = b[p];
            if 0x80 <= x && x <= 0xbf {
                p += 1;
            } else if line > after_line && (p - start + 1 >= want_col || x == 0x0A) {
                assert(!is_continuation_byte(b@[p as int]));
                assert(vertical_scan(b@, p as int, line as int, start as int, after_line as int, want_col as int, cur as int) == p);
                proof {
                    lemma_vertical_scan(b@, p as int, line as int, start as int, after_line as int, want_col as int, cur as int);
                }
                return p;
            } else {
                if x == 0x0A {
                    line += 1;
                    start = p + 1;
                }
                if p == n - 1 {
                    cur = n;
                }
                p += 1;
            }
        }
        cur
    }

    /// Delete the character before the cursor (see `previous_offset` for the
    /// step taken); `false` at the start of the text.
    pub fn delete_backward(&mut self) -> (r: bool)
        requires
            old(self).wf(),
            old(self).cursor_offset > 0 ==> is_boundary(
                old(self).bytes(),
                previous_offset(old(self).bytes(), old(self).cursor_offset as int),
            ),
        ensures
            final(self).wf(),
            r == (old(self).cursor_offset > 0),
            r ==> final(self).bytes() == edited(
                old(self).bytes(),
                previous_offset(old(self).bytes(), old(self).cursor_offset as int),
                old(self).cursor_offset as int,
                Seq::empty(),
            ),
            r ==> final(self).placed_at(previous_offset(old(self).bytes(), old(self).cursor_offset as int)),
            !r ==> *final(self) == *old(self),
            final(self).same_meta(old(self)),
    {
        if self.cursor_offset == 0 {
            return false;
        }
        let o = self.cursor_offset;
        let prev = self.previous_boundary();
        proof {
            assert(""@ == Seq::<char>::empty()) by {
                reveal_strlit("");
            }
            let b = old(self).bytes();
            assert(utf8(Seq::<char>::empty()) == Seq::<u8>::empty());
            let e = edited(b, prev as int, o as int, Seq::<u8>::empty());
            assert(e.len() == b.len() - (o - prev));
            if prev < e.len() {
                assert(e[prev as int] == b[o as int]);
            }
        }
        self.replace_range(prev, o, "", prev);
        true
    }

    /// Delete the character at the cursor; `false` at the end of the text.
    pub fn delete_forward(&mut self) -> (r: bool)
        requires
            old(self).wf(),
        ensures
            final(self).wf(),
            r == (old(self).cursor_offset < old(self).bytes().len()),
            r ==> final(self).bytes() == edited(
                old(self).bytes(),
                old(self).cursor_offset as int,
                next_offset(old(self).bytes(), old(self).cursor_offset as int),
                Seq::empty(),
            ),
            r ==> final(self).placed_at(old(self).cursor_offset as int),
            !r ==> *final(self) == *old(self),
            final(self).same_meta(old(self)),
    {
        let n = bytes_of(&self.text).len();
        if self.cursor_offset >= n {
            return false;
        }
        let o = self.cursor_offset;
        let next = self.next_boundary();
        proof {
            assert(""@ == Seq::<char>::empty()) by {
                reveal_strlit("");
            }
            let b = old(self).bytes();
            assert(utf8(Seq::<char>::empty()) == Seq::<u8>::empty());
            let e = edited(b, o as int, next as int, Seq::<u8>::empty());
            if o < e.len() {
                assert(e[o as int] == b[next as int]);
            }
        }
        self.replace_range(o, next, "", o);
        true
    }

    /// Insert a line break at the cursor.
    pub fn insert_newline(&mut self)
        requires
            old(self).wf(),
            old(self).bytes().len() + 1 <= isize::MAX,
        ensures
            final(self).wf(),
            final(self).bytes() == edited(
                old(self).bytes(),
                old(self).cursor_offset as int,
                old(self).cursor_offset as int,
                seq![0x0Au8],
            ),
            final(self).placed_at(old(self).cursor_offset + 1),
            final(self).same_meta(old(self)),
    {
        proof {
            lemma_newline_utf8();
        }
        self.insert_char('\n');
    }

    /// Move the cursor up one line, keeping the column where the line is
    /// long enough; from line 1 (or above) it goes to the start of the text.
    pub fn cursor_up(&mut self)
        requires
            old(self).wf(),
        ensures
            final(self).wf(),
            final(self).text == old(self).text,
            final(self).same_meta(old(self)),
            old(self).cursor_line <= 1 ==> final(self).placed_at(0),
            old(self).cursor_line > 1 ==> final(self).placed_at(
                vertical_target(
                    old(self).bytes(),
                    old(self).cursor_line - 2,
                    old(self).cursor_col as int,
                    old(self).cursor_offset as int,
                ),
            ),
    {
        if self.cursor_line <= 1 {
            self.cursor_offset = 0;
            self.recalc_cursor();
            return;
        }
        let t = self.vertical_target_exec(self.cursor_line - 2, self.cursor_col);
        self.cursor_offset = t;
        self.recalc_cursor();
    }

    /// Move the cursor down one line, keeping the column where the line is
    /// long enough; on the last line it stays, or goes to the end of the text.
    pub fn cursor_down(&mut self)
        requires
            old(self).wf(),
        ensures
            final(self).wf(),
            final(self).text == old(self).text,
            final(self).same_meta(old(self)),
            final(self).placed_at(
                vertical_target(
                    old(self).bytes(),
                    old(self).cursor_line as int,
                    old(self).cursor_col as int,
                    old(self).cursor_offset as int,
                ),
            ),
    {
        let t = self.vertical_target_exec(self.cursor_line, self.cursor_col);
        self.cursor_offset = t;
        self.recalc_cursor();
    }

    /// Move the cursor one step left (see `previous_offset`); nothing at the
    /// start of the text.
    pub fn cursor_left(&mut self)
        requires
            old(self).wf(),
            old(self).cursor_offset > 0 ==> is_boundary(
                old(self).bytes(),
                previous_offset(old(self).bytes(), old(self).cursor_offset as int),
            ),
        ensures
            final(self).wf(),
            old(self).cursor_offset == 0 ==> *final(self) == *old(self),
            old(self).cursor_offset > 0 ==> final(self).placed_at(
                previous_offset(old(self).bytes(), old(self).cursor_offset as int),
            ),
            final(self).text == old(self).text,
            final(self).same_meta(old(self)),
    {
        if self.cursor_offset == 0 {
            return;
        }
        self.cursor_offset = self.previous_boundary();
        self.recalc_cursor();
    }

    /// Move the cursor past the character at it; nothing at the end.
    pub fn cursor_right(&mut self)
        requires
            old(self).wf(),
        ensures
            final(self).wf(),
            old(self).cursor_offset >= old(self).bytes().len() ==> *final(self) == *old(self),
            old(self).cursor_offset < old(self).bytes().len() ==> final(self).placed_at(
                next_offset(old(self).bytes(), old(self).cursor_offset as int),
            ),
            final(self).text == old(self).text,
            final(self).same_meta(old(self)),
    {
        let n = bytes_of(&self.text).len();
        if self.cursor_offset >= n {
            return;
        }
        self.cursor_offset = self.next_boundary();
        self.recalc_cursor();
    }

    /// Move the cursor to the start of its line.
    pub fn home(&mut self)
        requires
            old(self).wf(),
        ensures
            final(self).wf(),
            final(self).placed_at(line_start(old(self).bytes(), old(self).cursor_offset as int)),
            final(self).text == old(self).text,
            final(self).same_meta(old(self)),
    {
        let b = bytes_of(&self.text);
        let mut i = self.cursor_offset;
        while i > 0 && b[i - 1] != 0x0A
            invariant
                i <= b@.len(),
                b@ == self.bytes(),
                line_start(b@, i as int) == line_start(b@, self.cursor_offset as int),
            decreases i,
        {
            i -= 1;
        }
        proof {
            lemma_line_start(b@, i as int);
            if i > 0 {
                lemma_after_ascii_is_boundary(b@, i as int);
            }
        }
        self.cursor_offset = i;
        self.recalc_cursor();
    }

    /// Move the cursor to the end of its line (before its newline).
    pub fn end(&mut self)
        requires
            old(self).wf(),
        ensures
            final(self).wf(),
            final(self).placed_at(line_end(old(self).bytes(), old(self).cursor_offset as int)),
            final(self).text == old(self).text,
            final(self).same_meta(old(self)),
    {
        let b = bytes_of(&self.text);
        let mut i = self.cursor_offset;
        while i < b.len() && b[i] != 0x0A
            invariant
                i <= b@.len(),
                b@ == self.bytes(),
                line_end(b@, i as int) == line_end(b@, self.cursor_offset as int),
            decreases b.len() - i,
        {
            i += 1;
        }
        proof {
            lemma_line_end(b@, i as int);
        }
        self.cursor_offset = i;
        self.recalc_cursor();
    }

    /// Insert the time and date for `now` seconds after the Unix epoch
    /// (see `time_date_text`) at the cursor.
    pub fn insert_time_date_at(&mut self, now: u64)
        requires
            old(self).wf(),
            old(self).bytes().len() + 19 <= isize::MAX,
        ensures
            final(self).wf(),
            final(self).bytes() == edited(
                old(self).bytes(),
                old(self).cursor_offset as int,
                old(self).cursor_offset as int,
                utf8(time_date_text(now as int)),
            ),
            final(self).placed_at(old(self).cursor_offset + utf8(time_date_text(now as int)).len()),
            final(self).same_meta(old(self)),
    {
        let s = time_date_string(now);
        proof {
            lemma_ascii_utf8_len(s@);
        }
        self.insert_str(s.as_str());
    }

    /// Insert the current time and date at the cursor.
    pub fn insert_time_date(&mut self)
        requires
            old(self).wf(),
            old(self).bytes().len() + 19 <= isize::MAX,
        ensures
            final(self).wf(),
            exists|now: u64|
                {
                    &&& final(self).bytes() == edited(
                        old(self).bytes(),
                        old(self).cursor_offset as int,
                        old(self).cursor_offset as int,
                        utf8(time_date_text(now as int)),
                    )
                    &&& final(self).placed_at(
                        old(self).cursor_offset + utf8(time_date_text(now as int)).len(),
                    )
                },
            final(self).same_meta(old(self)),
    {
        let now = unix_now_secs();
        self.insert_time_date_at(now);
    }

    /// Put the cursor at `byte_offset`, or at the end when that is past it.
    pub fn set_cursor(&mut self, byte_offset: usize)
        requires
            old(self).wf(),
            is_boundary(
                old(self).bytes(),
                if byte_offset < old(self).bytes().len() {
                    byte_offset as int
                } else {
                    old(self).bytes().len() as int
                },
            ),
        ensures
            final(self).wf(),
            final(self).placed_at(
                if byte_offset < old(self).bytes().len() {
                    byte_offset as int
                } else {
                    old(self).bytes().len() as int
                },
            ),
            final(self).text == old(self).text,
            final(self).same_meta(old(self)),
    {
        let n = bytes_of(&self.text).len();
        self.cursor_offset = if byte_offset < n {
            byte_offset
        } else {
            n
        };
        self.recalc_cursor();
    }

    /// The file's name for display: the last component of its path, or
    /// `Untitled` when there is no path (or the path has no final name).
    pub fn file_name(&self) -> (n: String)
        ensures
            self.file_path is None ==> n@ == untitled(),
            self.file_path matches Some(p) ==> (n@ == untitled() || text::piece_of(n@, p@)),
            self.file_path matches Some(p) ==> forall|d: Seq<char>, q: Seq<char>|
                #[trigger] text::ends_in_name(p@, d, q) ==> n@ == q,
    {
        match &self.file_path {
            Some(p) => match text::path_file_name(p.as_str()) {
                Some(name) => name,
                None => untitled_string(),
            },
            None => untitled_string(),
        }
    }
}

impl Default for TextBuffer {
    fn default() -> (b: Self)
        ensures
            b.wf(),
            b.text@ == Seq::<char>::empty(),
            b.saved() == Seq::<char>::empty(),
            b.file_path is None,
            b.placed_at(0),
            !b.word_wrap,
            b.error_text() == Seq::<char>::empty(),
    {
        TextBuffer::new()
    }
}

/// The name shown for a buffer without a file.
pub open spec fn untitled() -> Seq<char> {
    seq!['U', 'n', 't', 'i', 't', 'l', 'e', 'd']
}

fn untitled_string() -> (s: String)
    ensures
        s@ == untitled(),
{
    let mut s = String::new();
    let word = ['U', 'n', 't', 'i', 't', 'l', 'e', 'd'];
    let mut i: usize = 0;
    while i < 8
        invariant
            i <= 8,
            s@ == untitled().take(i as int),
            word@ == untitled(),
        decreases 8 - i,
    {
        text::push_char(&mut s, word[i]);
        i += 1;
        assert(s@ == untitled().take(i as int));
    }
    s
}

/// The seconds since the Unix epoch on the system clock (0 when the clock is
/// set before it). Nothing is stated: it is the time.
#[verifier::external_body]
fn unix_now_secs() -> (secs: u64) {
    std::time::SystemTime::now().duration_since(std::time::UNIX_EPOCH).unwrap_or_default().as_secs()
}

proof fn lemma_newline_utf8()
    ensures
        utf8(seq!['\n']) == seq![0x0Au8],
{
    let s = seq!['\n'];
    assert(s[0] as u32 == 10);
    assert(s.drop_first().len() == 0);
    assert((10u32 & 0x7F) as u8 == 10u8) by (bit_vector);
    assert(vstd::utf8::encode_scalar(10u32) == seq![10u8]);
    assert(encode_utf8(s) == vstd::utf8::encode_scalar(10u32) + encode_utf8(s.drop_first()));
}

/// In valid UTF-8, the last character starts at most four bytes before the
/// end, with only continuation bytes after its first byte.
proof fn lemma_last_char_start(p: Seq<u8>) -> (k: int)
    requires
        valid_utf8(p),
        p.len() > 0,
    ensures
        p.len() - 4 <= k < p.len(),
        0 <= k,
        !is_continuation_byte(p[k]),
        forall|j: int| k < j < p.len() ==> is_continuation_byte(#[trigger] p[j]),
        vstd::utf8::is_char_boundary(p, k),
    decreases p.len(),
{
    let l = vstd::utf8::length_of_first_scalar(p);
    let rest = vstd::utf8::pop_first_scalar(p);
    lemma_first_byte_leading(p);
    if rest.len() == 0 {
        vstd::utf8::is_char_boundary_start_end_of_seq(p);
        0
    } else {
        let k2 = lemma_last_char_start(rest);
        assert(rest[k2] == p[l + k2]);
        assert forall|j: int| l + k2 < j < p.len() implies is_continuation_byte(#[trigger] p[j]) by {
            assert(rest[j - l] == p[j]);
        }
        vstd::utf8::is_char_boundary_iff_not_is_continuation_byte(p, l + k2);
        l + k2
    }
}

/// In valid UTF-8, the last character starts `length_of_last_scalar` bytes
/// before the end.
proof fn lemma_last_scalar_start(p: Seq<u8>)
    requires
        valid_utf8(p),
        p.len() > 0,
    ensures
        1 <= length_of_last_scalar(p) <= p.len(),
        vstd::utf8::is_char_boundary(p, p.len() - length_of_last_scalar(p)),
{
    let k = lemma_last_char_start(p);
    let n = p.len() as int;
    if k < n - 1 {
        assert(is_continuation_byte(p[n - 1]));
    }
    if k < n - 2 {
        assert(is_continuation_byte(p[n - 2]));
    }
    if k < n - 3 {
        assert(is_continuation_byte(p[n - 3]));
    }
    assert(length_of_last_scalar(p) == n - k);
}

/// An ASCII character is one UTF-8 byte, its code.
pub proof fn lemma_ascii_char_utf8(ch: char)
    requires
        (ch as u32) < 0x80,
    ensures
        utf8(seq![ch]) == seq![(ch as u32) as u8],
{
    let s = seq![ch];
    let v = ch as u32;
    assert(s[0] as u32 == v);
    assert(s.drop_first().len() == 0);
    assert(v < 0x80 ==> (v & 0x7F) as u8 == v as u8) by (bit_vector);
    assert(vstd::utf8::encode_scalar(v) == seq![v as u8]);
    assert(encode_utf8(s) == vstd::utf8::encode_scalar(v) + encode_utf8(s.drop_first()));
}

/// Typing an ASCII character and then deleting backward gives back the
/// text and the cursor, when the character before the cursor (if any) is
/// ASCII too.
pub proof fn lemma_insert_then_delete_backward(b: Seq<u8>, o: int, ch: char)
    requires
        valid_utf8(b),
        is_boundary(b, o),
        (ch as u32) < 0x80,
        o == 0 || b[o - 1] < 0x80,
    ensures
        ({
            let e = edited(b, o, o, utf8(seq![ch]));
            &&& previous_offset(e, o + utf8(seq![ch]).len()) == o
            &&& is_boundary(e, o)
            &&& edited(e, o, o + utf8(seq![ch]).len(), Seq::empty()) == b
        }),
{
    lemma_ascii_char_utf8(ch);
    let c = (ch as u32) as u8;
    let e = edited(b, o, o, seq![c]);
    let p = e.take(o + 1);
    assert(p[o] == c);
    assert(length_of_last_scalar(p) == 1);
    assert(p.take(o) == b.take(o));
    if o > 0 {
        assert(b.take(o)[o - 1] == b[o - 1]);
        assert(length_of_last_scalar(b.take(o)) == 1);
    }
    assert(edited(e, o, o + 1, Seq::empty()) == b);
}

proof fn lemma_boundary_from_skips(b: Seq<u8>, p: int)
    requires
        0 <= p,
    ensures
        forall|j: int| p <= j < boundary_from(b, p) ==> is_continuation_byte(#[trigger] b[j]),
    decreases b.len() - p,
{
    if p < b.len() && is_continuation_byte(b[p]) {
        lemma_boundary_from_skips(b, p + 1);
    }
}

/// The character that starts at `o` is the last one of the text up to
/// `next_offset(b, o)`, and its width is the distance between them.
proof fn lemma_char_at_is_last(b: Seq<u8>, o: int)
    requires
        valid_utf8(b),
        is_boundary(b, o),
        o < b.len(),
    ensures
        o < next_offset(b, o) <= b.len(),
        is_boundary(b, next_offset(b, o)),
        length_of_last_scalar(b.take(next_offset(b, o))) == next_offset(b, o) - o,
{
    let e = next_offset(b, o);
    lemma_boundary_from(b, o + 1);
    lemma_boundary_from_skips(b, o + 1);
    lemma_boundary_is_char_boundary(b, e);
    vstd::utf8::valid_utf8_split(b, e);
    let p = b.take(e);
    assert(p == b.subrange(0, e));
    let k = lemma_last_char_start(p);
    assert(p[o] == b[o]);
    if o < k {
        assert(p[k] == b[k]);
        assert(is_continuation_byte(b[k]));
    }
    if k < o {
        assert(is_continuation_byte(p[o]));
    }
    assert(k == o);
    let n = e;
    if k < n - 1 {
        assert(is_continuation_byte(p[n - 1]));
    }
    if k < n - 2 {
        assert(is_continuation_byte(p[n - 2]));
    }
    if k < n - 3 {
        assert(is_continuation_byte(p[n - 3]));
    }
    assert(length_of_last_scalar(p) == n - k);
}

/// Moving right and then left comes back to the same offset, when the
/// character before the cursor is as wide as the one after it (at the
/// start of the text: when the first character is one byte). Elsewhere it
/// does not: moving left steps back by the width of the character before
/// the one it passes (see `previous_offset`).
pub proof fn lemma_right_then_left(b: Seq<u8>, o: int)
    requires
        valid_utf8(b),
        is_boundary(b, o),
        o < b.len(),
        o == 0 ==> next_offset(b, o) == 1,
        o > 0 ==> length_of_last_scalar(b.take(o)) == next_offset(b, o) - o,
    ensures
        previous_offset(b, next_offset(b, o)) == o,
        is_boundary(b, previous_offset(b, next_offset(b, o))),
{
    lemma_char_at_is_last(b, o);
    let e = next_offset(b, o);
    let p = b.take(e);
    assert(p.take(e - length_of_last_scalar(p)) == b.take(o));
}

/// Whether the buffer has unsaved changes depends on its text alone: edits
/// keep the saved snapshot (each ensures `same_meta`, which chains), so
/// along any sequence of edits the buffer is dirty exactly when its text
/// differs from the text it started from when that was saved, and buffers
/// with the same text are equally dirty.
pub proof fn lemma_dirty_follows_text(a: TextBuffer, b: TextBuffer, c: TextBuffer)
    requires
        b.same_meta(&a),
        c.same_meta(&b),
    ensures
        c.same_meta(&a),
        c.saved() == a.saved(),
        c.dirty() == (c.text@ != a.saved()),
        c.text@ == a.text@ ==> c.dirty() == a.dirty(),
{
}

/// The number of newlines in `b` from byte `p` on.
pub open spec fn newlines_from(b: Seq<u8>, p: int) -> int
    decreases b.len() - p,
{
    if p < 0 || p >= b.len() {
        0
    } else {
        (if b[p] == 0x0Au8 {
            1int
        } else {
            0
        }) + newlines_from(b, p + 1)
    }
}

/// Every byte is ASCII.
pub open spec fn ascii_bytes(b: Seq<u8>) -> bool {
    forall|i: int| 0 <= i < b.len() ==> #[trigger] b[i] < 0x80
}

proof fn lemma_line_col_step(b: Seq<u8>, p: int)
    requires
        0 <= p < b.len(),
    ensures
        line_col(b.take(p + 1)) == (if b[p] == 0x0Au8 {
            (line_col(b.take(p)).0 + 1, 1)
        } else if is_continuation_byte(b[p]) {
            line_col(b.take(p))
        } else {
            (line_col(b.take(p)).0, line_col(b.take(p)).1 + 1)
        }),
{
    assert(b.take(p + 1).drop_last() == b.take(p));
    assert(b.take(p + 1).last() == b[p]);
}

/// The lines up to `p` and the newlines after it make up all the lines.
proof fn lemma_lines_split(b: Seq<u8>, p: int)
    requires
        0 <= p <= b.len(),
    ensures
        line_col(b.take(p)).0 + newlines_from(b, p) == line_col(b).0,
    decreases b.len() - p,
{
    if p == b.len() {
        assert(b.take(p) == b);
    } else {
        lemma_line_col_step(b, p);
        lemma_lines_split(b, p + 1);
        if b[p] == 0x0Au8 {
        } else {
            assert(!is_continuation_byte(b[p]) || b[p] != 0x0Au8);
        }
    }
}

proof fn lemma_vertical_scan_line(b: Seq<u8>, p: int, line: int, start: int, a: int, w: int, cur: int)
    requires
        0 <= p <= b.len(),
        0 <= a,
        1 <= w,
        line == line_col(b.take(p)).0,
        1 <= line <= a + 1,
        start <= p,
        ascii_bytes(b) ==> line_col(b.take(p)).1 == p - start + 1,
        ascii_bytes(b) && line == a + 1 ==> p - start + 1 <= w,
        line + newlines_from(b, p) > a + 1 || (line + newlines_from(b, p) == a + 1 && b.len() > 0 && b.last() < 0x80
            && (p == b.len() ==> cur == b.len())),
    ensures
        ({
            let r = vertical_scan(b, p, line, start, a, w, cur);
            &&& 0 <= r <= b.len()
            &&& line_col(b.take(r)).0 == a + 1
            &&& ascii_bytes(b) ==> line_col(b.take(r)).1 <= w && (line_col(b.take(r)).1 < w ==> (r == b.len() || b[r] == 0x0Au8))
        }),
    decreases b.len() - p,
{
    if p >= b.len() {
        assert(b.take(p) == b.take(b.len() as int));
    } else if is_continuation_byte(b[p]) {
        lemma_line_col_step(b, p);
        if ascii_bytes(b) {
            assert(b[p] < 0x80);
        }
        if p + 1 == b.len() {
            assert(b.last() == b[p]);
        }
        lemma_vertical_scan_line(b, p + 1, line, start, a, w, cur);
    } else if line > a && (p - start + 1 >= w || b[p] == 0x0Au8) {
    } else {
        lemma_line_col_step(b, p);
        let nl = b[p] == 0x0Au8;
        let line2 = if nl {
            line + 1
        } else {
            line
        };
        let start2 = if nl {
            p + 1
        } else {
            start
        };
        let cur2 = if p == b.len() - 1 {
            b.len() as int
        } else {
            cur
        };
        lemma_vertical_scan_line(b, p + 1, line2, start2, a, w, cur2);
    }
}

/// A vertical move lands on the line it aims at, `after_line + 1`, and so
/// never past the newline that ends that line; in ASCII text it lands at
/// column `want_col`, or before it only at the end of a shorter line (its
/// newline or the end of the text). This holds when that line exists and
/// ends with a newline, or is the last line and the text ends with an
/// ASCII byte.
pub proof fn lemma_vertical_move_lands_on_its_line(b: Seq<u8>, after_line: int, want_col: int, cursor: int)
    requires
        0 <= after_line,
        1 <= want_col,
        line_col(b).0 > after_line + 1 || (line_col(b).0 == after_line + 1 && b.len() > 0 && b.last() < 0x80),
    ensures
        ({
            let r = vertical_target(b, after_line, want_col, cursor);
            &&& 0 <= r <= b.len()
            &&& line_col(b.take(r)).0 == after_line + 1
            &&& ascii_bytes(b) ==> line_col(b.take(r)).1 <= want_col && (line_col(b.take(r)).1 < want_col ==> (r
                == b.len() || b[r] == 0x0Au8))
        }),
{
    lemma_lines_split(b, 0);
    assert(b.take(0) == Seq::<u8>::empty());
    lemma_vertical_scan_line(b, 0, 1, 0, after_line, want_col, cursor);
}

proof fn lemma_newlines_nonneg(b: Seq<u8>, p: int)
    ensures
        newlines_from(b, p) >= 0,
    decreases b.len() - p,
{
    if 0 <= p < b.len() {
        lemma_newlines_nonneg(b, p + 1);
    }
}

proof fn lemma_line_col_positive(p: Seq<u8>)
    ensures
        line_col(p).0 >= 1,
        line_col(p).1 >= 1,
    decreases p.len(),
{
    if p.len() > 0 {
        lemma_line_col_positive(p.drop_last());
    }
}

/// Moving up from line `L > 1` lands on line `L - 1`: in ASCII text at the
/// same column, or at the end of line `L - 1` when that is shorter.
pub proof fn lemma_cursor_up_lands_on_previous_line(b: TextBuffer)
    requires
        b.wf(),
        b.placed_at(b.cursor_offset as int),
        b.cursor_line > 1,
    ensures
        ({
            let bs = b.bytes();
            let r = vertical_target(bs, b.cursor_line - 2, b.cursor_col as int, b.cursor_offset as int);
            &&& line_col(bs.take(r)).0 == b.cursor_line - 1
            &&& ascii_bytes(bs) ==> line_col(bs.take(r)).1 <= b.cursor_col && (line_col(bs.take(r)).1
                < b.cursor_col ==> (r == bs.len() || bs[r] == 0x0Au8))
        }),
{
    let bs = b.bytes();
    lemma_lines_split(bs, b.cursor_offset as int);
    lemma_newlines_nonneg(bs, b.cursor_offset as int);
    lemma_line_col_positive(bs.take(b.cursor_offset as int));
    lemma_vertical_move_lands_on_its_line(bs, b.cursor_line - 2, b.cursor_col as int, b.cursor_offset as int);
}

/// Moving down from line `L` when a newline follows line `L + 1` lands on
/// line `L + 1` (and so does moving down onto the last line when the text
/// ends with an ASCII byte): in ASCII text at the same column, or at the
/// end of line `L + 1` when that is shorter.
pub proof fn lemma_cursor_down_lands_on_next_line(b: TextBuffer)
    requires
        b.wf(),
        b.placed_at(b.cursor_offset as int),
        line_col(b.bytes()).0 > b.cursor_line + 1 || (line_col(b.bytes()).0 == b.cursor_line + 1
            && b.bytes().len() > 0 && b.bytes().last() < 0x80),
    ensures
        ({
            let bs = b.bytes();
            let r = vertical_target(bs, b.cursor_line as int, b.cursor_col as int, b.cursor_offset as int);
            &&& line_col(bs.take(r)).0 == b.cursor_line + 1
            &&& ascii_bytes(bs) ==> line_col(bs.take(r)).1 <= b.cursor_col && (line_col(bs.take(r)).1
                < b.cursor_col ==> (r == bs.len() || bs[r] == 0x0Au8))
        }),
{
    let bs = b.bytes();
    lemma_line_col_positive(bs.take(b.cursor_offset as int));
    lemma_vertical_move_lands_on_its_line(bs, b.cursor_line as int, b.cursor_col as int, b.cursor_offset as int);
}

/// Every character of `s` below 0x80 is one UTF-8 byte.
proof fn lemma_ascii_utf8_len(s: Seq<char>)
    requires
        forall|i: int| 0 <= i < s.len() ==> (s[i] as u32) < 0x80,
    ensures
        utf8(s).len() == s.len(),
    decreases s.len(),
{
    if s.len() > 0 {
        vstd::utf8::encode_utf8_first_scalar(s);
        lemma_ascii_utf8_len(s.drop_first());
    }
}

/// The text of `time_date_text(now)`.
pub fn time_date_string(now: u64) -> (s: String)
    ensures
        s@ == time_date_text(now as int),
        s@.len() == 19,
        forall|i: int| 0 <= i < s@.len() ==> (s@[i] as u32) < 0x80,
{
    let mut s = String::new();
    text::push_two_digits(&mut s, (now / 3600) % 24);
    text::push_char(&mut s, ':');
    text::push_two_digits(&mut s, (now / 60) % 60);
    text::push_char(&mut s, ':');
    text::push_two_digits(&mut s, now % 60);
    text::push_char(&mut s, ' ');
    text::push_two_digits(&mut s, (now / 86400) % 31 + 1);
    text::push_char(&mut s, '/');
    text::push_two_digits(&mut s, (now / 86400 / 30) % 12 + 1);
    text::push_char(&mut s, '/');
    text::push_char(&mut s, '2');
    text::push_char(&mut s, '0');
    text::push_char(&mut s, '2');
    text::push_char(&mut s, '6');
    assert(s@ == time_date_text(now as int));
    s
}

} // verus!
