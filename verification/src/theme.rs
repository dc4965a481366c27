//! The accent colour, configured as `#rrggbb`.
use vstd::prelude::*;
use crate::text;

verus! {

/// The default accent, `#569cd6`.
pub const ACCENT_DEFAULT: (u8, u8, u8) = (86, 156, 214);

/// `s` with every leading `#` removed.
pub open spec fn strip_hashes(s: Seq<char>) -> Seq<char>
    decreases s.len(),
{
    if s.len() > 0 && s[0] == '#' {
        strip_hashes(s.drop_first())
    } else {
        s
    }
}

/// The hex part of a configured colour: trimmed, without leading `#`s.
pub open spec fn accent_hex(s: Seq<char>) -> Seq<char> {
    strip_hashes(text::trim(s))
}

/// The byte two hex digits spell.
pub open spec fn hex_pair(c0: char, c1: char) -> u8 {
    (16 * text::hex_value(c0) + text::hex_value(c1)) as u8
}

/// The colour `s` names: after trimming and dropping leading `#`s, exactly
/// six ASCII hex digits `rrggbb`; anything else names none.
pub open spec fn spec_parse_accent(s: Seq<char>) -> Option<(u8, u8, u8)> {
    let h = accent_hex(s);
    if h.len() == 6 && forall|i: int| 0 <= i < 6 ==> text::is_hex_digit(#[trigger] h[i]) {
        Some((hex_pair(h[0], h[1]), hex_pair(h[2], h[3]), hex_pair(h[4], h[5])))
    } else {
        None
    }
}

fn is_hex_digit_exec(c: char) -> (b: bool)
    ensures
        b == text::is_hex_digit(c),
{
    ('0' <= c && c <= '9') || ('a' <= c && c <= 'f') || ('A' <= c && c <= 'F')
}

/// Parse `#rrggbb` (see `spec_parse_accent`).
pub fn parse_accent(s: &str) -> (r: Option<(u8, u8, u8)>)
    ensures
        r == spec_parse_accent(s@),
{
    let v = text::chars_of(s);
    let t = text::trim_chars(&v);
    let mut i: usize = 0;
    assert(t@.skip(0) == t@);
    while i < t.len() && t[i] == '#'
        invariant
            i <= t@.len(),
            strip_hashes(t@.skip(i as int)) == strip_hashes(t@),
        decreases t.len() - i,
    {
        assert(t@.skip(i as int).drop_first() == t@.skip(i + 1));
        i += 1;
    }
    let h = text::subvec(&t, i, t.len());
    assert(h@ == t@.skip(i as int));
    assert(h@ == accent_hex(s@));
    if h.len() != 6 {
        return None;
    }
    let mut k: usize = 0;
    while k < 6
        invariant
            h@.len() == 6,
            h@ == accent_hex(s@),
            k <= 6,
            forall|j: int| 0 <= j < k ==> text::is_hex_digit(#[trigger] h@[j]),
        decreases 6 - k,
    {
        if !is_hex_digit_exec(h[k]) {
            assert(!text::is_hex_digit(accent_hex(s@)[k as int]));
            return None;
        }
        k += 1;
    }
    let r = 16 * text::hex_value_exec(h[0]) + text::hex_value_exec(h[1]);
    let g = 16 * text::hex_value_exec(h[2]) + text::hex_value_exec(h[3]);
    let b = 16 * text::hex_value_exec(h[4]) + text::hex_value_exec(h[5]);
    Some((r, g, b))
}

/// Apply the configured accent: the parsed colour when `configured` is
/// one, else the accent stays.
pub fn apply_config_accent(accent: &mut (u8, u8, u8), configured: &str)
    ensures
        match spec_parse_accent(configured@) {
            Some(c) => *final(accent) == c,
            None => *final(accent) == *old(accent),
        },
{
    match parse_accent(configured) {
        Some(c) => {
            *accent = c;
        },
        None => {},
    }
}

} // verus!
