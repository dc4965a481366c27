//! Color picker provider: `#ff0000` → a swatch and copyable hex and
//! `rgb(...)` variants.
use vstd::prelude::*;
use crate::text;
use super::SearchResult;

verus! {

/// All characters of `h` are hexadecimal digits.
pub open spec fn all_hex(h: Seq<char>) -> bool {
    forall|i: int| 0 <= i < h.len() ==> text::is_hex_digit(#[trigger] h[i])
}

/// The byte written by two hex digits.
pub open spec fn hex_pair(h: Seq<char>, i: int) -> nat {
    text::hex_value(h[i]) * 16 + text::hex_value(h[i + 1])
}

/// `parse_hex`: after trimming, a `#` and then exactly 3, 6 or 8 hex digits
/// (`#rgb` repeats each digit; the alpha pair of `#rrggbbaa` is ignored).
pub open spec fn spec_parse_hex(query: Seq<char>) -> Option<(u8, u8, u8)> {
    let t = text::trim(query);
    if t.len() == 0 || t[0] != '#' {
        None
    } else {
        let h = t.drop_first();
        if !all_hex(h) {
            None
        } else if h.len() == 3 {
            Some(
                (
                    (text::hex_value(h[0]) * 17) as u8,
                    (text::hex_value(h[1]) * 17) as u8,
                    (text::hex_value(h[2]) * 17) as u8,
                ),
            )
        } else if h.len() == 6 || h.len() == 8 {
            Some((hex_pair(h, 0) as u8, hex_pair(h, 2) as u8, hex_pair(h, 4) as u8))
        } else {
            None
        }
    }
}

/// Parse a `#rgb` / `#rrggbb` / `#rrggbbaa` query into (r, g, b).
pub fn parse_hex(query: &str) -> (r: Option<(u8, u8, u8)>)
    ensures
        r == spec_parse_hex(query@),
{
    let v = text::chars_of(query);
    let t = text::trim_chars(&v);
    if t.len() == 0 || t[0] != '#' {
        return None;
    }
    let h = text::subvec(&t, 1, t.len());
    assert(h@ == t@.drop_first());
    if h.len() != 3 && h.len() != 6 && h.len() != 8 {
        return None;
    }
    let mut i: usize = 0;
    while i < h.len()
        invariant
            i <= h.len(),
            t@ == text::trim(query@),
            t@.len() > 0 && t@[0] == '#',
            h@ == t@.drop_first(),
            forall|j: int| 0 <= j < i ==> text::is_hex_digit(#[trigger] h@[j]),
        decreases h.len() - i,
    {
        let c = h[i];
        if !(text::is_ascii_digit(c) || ('a' <= c && c <= 'f') || ('A' <= c && c <= 'F')) {
            assert(!text::is_hex_digit(h@[i as int]));
            return None;
        }
        i += 1;
    }
    if h.len() == 3 {
        let r = text::hex_value_exec(h[0]) * 17;
        let g = text::hex_value_exec(h[1]) * 17;
        let b = text::hex_value_exec(h[2]) * 17;
        Some((r, g, b))
    } else {
        let r = text::hex_value_exec(h[0]) * 16 + text::hex_value_exec(h[1]);
        let g = text::hex_value_exec(h[2]) * 16 + text::hex_value_exec(h[3]);
        let b = text::hex_value_exec(h[4]) * 16 + text::hex_value_exec(h[5]);
        Some((r, g, b))
    }
}

/// `rgb(r, g, b)` with plain decimals.
pub open spec fn spec_rgb(r: u8, g: u8, b: u8) -> Seq<char> {
    "rgb("@ + text::decimal(r as nat) + ", "@ + text::decimal(g as nat) + ", "@ + text::decimal(
        b as nat,
    ) + ")"@
}

/// `#RRGGBB` with upper-case hex digits.
pub open spec fn spec_hex_code(r: u8, g: u8, b: u8) -> Seq<char> {
    seq![
        '#',
        text::hex_digit_upper((r / 16) as nat),
        text::hex_digit_upper((r % 16) as nat),
        text::hex_digit_upper((g / 16) as nat),
        text::hex_digit_upper((g % 16) as nat),
        text::hex_digit_upper((b / 16) as nat),
        text::hex_digit_upper((b % 16) as nat),
    ]
}

/// `#ff0000` → `rgb(255, 0, 0)`.
pub fn to_rgb(r: u8, g: u8, b: u8) -> (s: String)
    ensures
        s@ == spec_rgb(r, g, b),
{
    let mut s = "rgb(".to_owned();
    text::push_all(&mut s, text::decimal_string(r as u64).as_str());
    text::push_all(&mut s, ", ");
    text::push_all(&mut s, text::decimal_string(g as u64).as_str());
    text::push_all(&mut s, ", ");
    text::push_all(&mut s, text::decimal_string(b as u64).as_str());
    text::push_all(&mut s, ")");
    s
}

/// `#RRGGBB`, the hex form copied by the first result.
pub fn to_hex_code(r: u8, g: u8, b: u8) -> (s: String)
    ensures
        s@ == spec_hex_code(r, g, b),
{
    let mut s = String::new();
    text::push_char(&mut s, '#');
    text::push_char(&mut s, text::hex_digit_upper_exec(r / 16));
    text::push_char(&mut s, text::hex_digit_upper_exec(r % 16));
    text::push_char(&mut s, text::hex_digit_upper_exec(g / 16));
    text::push_char(&mut s, text::hex_digit_upper_exec(g % 16));
    text::push_char(&mut s, text::hex_digit_upper_exec(b / 16));
    text::push_char(&mut s, text::hex_digit_upper_exec(b % 16));
    s
}

/// 32×32 solid RGBA pixels of one color.
pub open spec fn spec_swatch(r: u8, g: u8, b: u8) -> Seq<u8> {
    Seq::new(
        4096,
        |j: int|
            if j % 4 == 0 {
                r
            } else if j % 4 == 1 {
                g
            } else if j % 4 == 2 {
                b
            } else {
                255u8
            },
    )
}

/// 32×32 solid RGBA swatch for a color.
pub fn swatch(r: u8, g: u8, b: u8) -> (s: (Vec<u8>, u32, u32))
    ensures
        s.0@ == spec_swatch(r, g, b),
        s.1 == 32,
        s.2 == 32,
{
    let mut pixels: Vec<u8> = Vec::new();
    let mut i: usize = 0;
    while i < 1024
        invariant
            i <= 1024,
            pixels@ == spec_swatch(r, g, b).take(4 * i),
        decreases 1024 - i,
    {
        let ghost n = 4 * i;
        pixels.push(r);
        pixels.push(g);
        pixels.push(b);
        pixels.push(255);
        proof {
            let sw = spec_swatch(r, g, b);
            vstd::arithmetic::div_mod::lemma_fundamental_div_mod_converse(n, 4, i as int, 0);
            vstd::arithmetic::div_mod::lemma_fundamental_div_mod_converse(n + 1, 4, i as int, 1);
            vstd::arithmetic::div_mod::lemma_fundamental_div_mod_converse(n + 2, 4, i as int, 2);
            vstd::arithmetic::div_mod::lemma_fundamental_div_mod_converse(n + 3, 4, i as int, 3);
            assert(pixels@ == sw.take(n + 4));
        }
        i += 1;
    }
    assert(spec_swatch(r, g, b).take(4096) == spec_swatch(r, g, b));
    (pixels, 32, 32)
}

pub struct ColorProvider;

impl ColorProvider {
    /// Runs only on a `#`-prefixed hex color.
    pub fn should_run(&self, query: &str) -> (b: bool)
        ensures
            b == (spec_parse_hex(query@) is Some),
    {
        parse_hex(query).is_some()
    }

    /// For a hex color: the `#RRGGBB` form (score 950) and the `rgb(...)` form
    /// (score 940), both with the color's swatch as icon; nothing otherwise.
    pub fn search(&self, query: &str) -> (res: Vec<SearchResult>)
        ensures
            match spec_parse_hex(query@) {
                None => res.len() == 0,
                Some((r, g, b)) => {
                    &&& res.len() == 2
                    &&& res[0].title@ == spec_hex_code(r, g, b)
                    &&& res[0].action@ == spec_hex_code(r, g, b)
                    &&& res[0].subtitle@ == "Copy hex"@
                    &&& res[0].score == 950
                    &&& res[1].title@ == spec_rgb(r, g, b)
                    &&& res[1].action@ == spec_rgb(r, g, b)
                    &&& res[1].subtitle@ == "Copy RGB"@
                    &&& res[1].score == 940
                    &&& forall|i: int|
                        0 <= i < 2 ==> {
                            &&& (#[trigger] res[i]).kind@ == "color"@
                            &&& res[i].provider_id@ == "color"@
                            &&& res[i].icon_rgba matches Some(icon) && icon.0@ == spec_swatch(
                                r,
                                g,
                                b,
                            ) && icon.1 == 32 && icon.2 == 32
                        }
                },
            },
    {
        let mut res: Vec<SearchResult> = Vec::new();
        match parse_hex(query) {
            None => res,
            Some((r, g, b)) => {
                let hex = to_hex_code(r, g, b);
                let rgb = to_rgb(r, g, b);
                let (px1, w1, h1) = swatch(r, g, b);
                let (px2, w2, h2) = swatch(r, g, b);
                res.push(
                    SearchResult {
                        title: to_hex_code(r, g, b),
                        subtitle: "Copy hex".to_owned(),
                        kind: "color".to_owned(),
                        provider_id: "color".to_owned(),
                        action: hex,
                        icon_rgba: Some((px1, w1, h1)),
                        score: 950,
                    },
                );
                res.push(
                    SearchResult {
                        title: to_rgb(r, g, b),
                        subtitle: "Copy RGB".to_owned(),
                        kind: "color".to_owned(),
                        provider_id: "color".to_owned(),
                        action: rgb,
                        icon_rgba: Some((px2, w2, h2)),
                        score: 940,
                    },
                );
                res
            },
        }
    }
}

proof fn lemma_hex_digit_round_trip(n: nat)
    requires
        n < 16,
    ensures
        text::is_hex_digit(text::hex_digit_upper(n)),
        text::hex_value(text::hex_digit_upper(n)) == n,
        !text::is_ws(text::hex_digit_upper(n)),
{
}

/// The `#RRGGBB` code a colour search shows parses back to the same colour.
pub proof fn lemma_hex_code_round_trip(r: u8, g: u8, b: u8)
    ensures
        spec_parse_hex(spec_hex_code(r, g, b)) == Some((r, g, b)),
{
    let s = spec_hex_code(r, g, b);
    lemma_hex_digit_round_trip((r / 16) as nat);
    lemma_hex_digit_round_trip((r % 16) as nat);
    lemma_hex_digit_round_trip((g / 16) as nat);
    lemma_hex_digit_round_trip((g % 16) as nat);
    lemma_hex_digit_round_trip((b / 16) as nat);
    lemma_hex_digit_round_trip((b % 16) as nat);
    assert(!text::is_ws(s[0]));
    assert(text::trim_start(s) == s);
    assert(!text::is_ws(s.last()));
    assert(text::trim_end(s) == s);
    let h = s.drop_first();
    assert(h.len() == 6);
    assert(all_hex(h)) by {
        assert forall|i: int| 0 <= i < h.len() implies text::is_hex_digit(#[trigger] h[i]) by {
            assert(h[i] == s[i + 1]);
        }
    }
    assert(hex_pair(h, 0) == r as nat);
    assert(hex_pair(h, 2) == g as nat);
    assert(hex_pair(h, 4) == b as nat);
}

} // verus!
