//! Web search: a bare URL opens directly, `yt cats`-style prefixes search
//! one site, and anything else becomes a web search with the configured
//! URL template (`%s` stands for the encoded query).
use vstd::prelude::*;
use crate::text;
use super::{plain_result, SearchResult};

verus! {

broadcast use vstd::utf8::encode_utf8_valid_utf8;

/// The search URL used when none is configured.
pub open spec fn default_search_url() -> Seq<char> {
    "https://duckduckgo.com/search?q=%s"@
}

/// A byte that stays as it is in a URL query: ASCII letters, digits and
/// `- _ . ~`.
pub open spec fn is_unreserved(b: u8) -> bool {
    (0x30 <= b <= 0x39) || (0x41 <= b <= 0x5A) || (0x61 <= b <= 0x7A) || b == 0x2D || b == 0x5F
        || b == 0x2E || b == 0x7E
}

/// The URL encoding of one byte: itself, or `%XX` in upper-case hex.
pub open spec fn encode_byte(b: u8) -> Seq<char> {
    if is_unreserved(b) {
        seq![(b as u32) as char]
    } else {
        seq!['%', text::hex_digit_upper((b / 16) as nat), text::hex_digit_upper((b % 16) as nat)]
    }
}

/// The URL encoding of bytes, one after another.
pub open spec fn encode_bytes(b: Seq<u8>) -> Seq<char>
    decreases b.len(),
{
    if b.len() == 0 {
        Seq::empty()
    } else {
        encode_bytes(b.drop_last()) + encode_byte(b.last())
    }
}

/// The URL encoding of the UTF-8 bytes of `q`.
pub open spec fn spec_encode_query(q: Seq<char>) -> Seq<char> {
    encode_bytes(vstd::utf8::encode_utf8(q))
}

/// Percent-decoding: `%` and two hex digits stand for the byte they spell,
/// any other ASCII character for its own byte; `None` for a `%` without
/// two hex digits after it or a non-ASCII character.
pub open spec fn percent_decode(s: Seq<char>) -> Option<Seq<u8>>
    decreases s.len(),
{
    if s.len() == 0 {
        Some(Seq::empty())
    } else if s[0] == '%' {
        if s.len() >= 3 && text::is_hex_digit(s[1]) && text::is_hex_digit(s[2]) {
            match percent_decode(s.skip(3)) {
                Some(rest) => Some(seq![(16 * text::hex_value(s[1]) + text::hex_value(s[2])) as u8] + rest),
                None => None,
            }
        } else {
            None
        }
    } else if (s[0] as u32) < 0x80 {
        match percent_decode(s.skip(1)) {
            Some(rest) => Some(seq![(s[0] as u32) as u8] + rest),
            None => None,
        }
    } else {
        None
    }
}

proof fn lemma_encode_bytes_prepend(x: u8, b: Seq<u8>)
    ensures
        encode_bytes(seq![x] + b) == encode_byte(x) + encode_bytes(b),
    decreases b.len(),
{
    if b.len() == 0 {
        assert(seq![x] + b == seq![x]);
        assert(seq![x].drop_last() == Seq::<u8>::empty());
        assert(encode_bytes(seq![x]) == encode_bytes(Seq::<u8>::empty()) + encode_byte(x));
        assert(encode_bytes(Seq::<u8>::empty()) + encode_byte(x) == encode_byte(x));
        assert(encode_byte(x) + encode_bytes(b) == encode_byte(x));
    } else {
        lemma_encode_bytes_prepend(x, b.drop_last());
        assert((seq![x] + b).drop_last() == seq![x] + b.drop_last());
        assert((seq![x] + b).last() == b.last());
        let e = encode_byte(x);
        let p = encode_bytes(b.drop_last());
        let l = encode_byte(b.last());
        assert((e + p) + l == e + (p + l));
    }
}

proof fn lemma_hex_digit_upper(n: nat)
    requires
        n < 16,
    ensures
        text::is_hex_digit(text::hex_digit_upper(n)),
        text::hex_value(text::hex_digit_upper(n)) == n,
{
    let c = text::hex_digit_upper(n);
    if n < 10 {
        assert(c as u32 == ('0' as u32) + n);
    } else {
        assert(c as u32 == ('A' as u32) + n - 10);
    }
}

/// Percent-decoding an encoding gives back the bytes encoded.
proof fn lemma_decode_encode_bytes(b: Seq<u8>)
    ensures
        percent_decode(encode_bytes(b)) == Some(b),
    decreases b.len(),
{
    if b.len() == 0 {
    } else {
        let x = b[0];
        let t = b.drop_first();
        assert(b == seq![x] + t);
        lemma_encode_bytes_prepend(x, t);
        lemma_decode_encode_bytes(t);
        let e = encode_byte(x);
        let s = e + encode_bytes(t);
        if is_unreserved(x) {
            let c = (x as u32) as char;
            assert(c as u32 == x as u32);
            assert(s[0] == c);
            assert(s.skip(1) == encode_bytes(t));
            assert(c != '%');
        } else {
            lemma_hex_digit_upper((x / 16) as nat);
            lemma_hex_digit_upper((x % 16) as nat);
            assert(s[0] == '%');
            assert(s[1] == text::hex_digit_upper((x / 16) as nat));
            assert(s[2] == text::hex_digit_upper((x % 16) as nat));
            assert(s.skip(3) == encode_bytes(t));
            assert((16 * ((x / 16) as nat) + ((x % 16) as nat)) as u8 == x);
        }
    }
}

/// Every byte of the query is kept: percent-decoding the encoded query
/// gives back exactly its UTF-8 bytes.
pub proof fn lemma_encoding_decodes_back(q: Seq<char>)
    ensures
        percent_decode(spec_encode_query(q)) == Some(vstd::utf8::encode_utf8(q)),
{
    lemma_decode_encode_bytes(vstd::utf8::encode_utf8(q));
}

/// A character that may stand in an encoded query: an unreserved ASCII
/// character or `%`.
pub open spec fn is_url_safe(c: char) -> bool {
    text::is_alnum(c) || c == '-' || c == '_' || c == '.' || c == '~' || c == '%'
}

/// An encoded query holds only URL-safe characters, so it cannot break out
/// of the template it is put in (no space, `&`, `?`, `/`, `#`, `=`).
pub proof fn lemma_encoded_is_safe(b: Seq<u8>)
    ensures
        forall|i: int| 0 <= i < encode_bytes(b).len() ==> is_url_safe(#[trigger] encode_bytes(b)[i]),
    decreases b.len(),
{
    if b.len() > 0 {
        lemma_encoded_is_safe(b.drop_last());
        let prev = encode_bytes(b.drop_last());
        let e = encode_byte(b.last());
        assert forall|i: int| 0 <= i < e.len() implies is_url_safe(#[trigger] e[i]) by {
            let x = b.last();
            if is_unreserved(x) {
                assert(((x as u32) as char) as u32 == x as u32);
            }
        }
        assert forall|i: int| 0 <= i < encode_bytes(b).len() implies is_url_safe(#[trigger] encode_bytes(b)[i]) by {
            if i < prev.len() {
                assert(encode_bytes(b)[i] == prev[i]);
            } else {
                assert(encode_bytes(b)[i] == e[i - prev.len()]);
            }
        }
    }
}

/// Percent-encode `query` for substitution into a URL template.
pub fn encode_query(query: &str) -> (r: String)
    ensures
        r@ == spec_encode_query(query@),
{
    let b = query.as_bytes();
    let mut out = String::new();
    let mut i: usize = 0;
    while i < b.len()
        invariant
            i <= b@.len(),
            b@ == vstd::utf8::encode_utf8(query@),
            out@ == encode_bytes(b@.take(i as int)),
        decreases b.len() - i,
    {
        let x = b[i];
        let ghost prev = out@;
        if (0x30 <= x && x <= 0x39) || (0x41 <= x && x <= 0x5A) || (0x61 <= x && x <= 0x7A) || x == 0x2D
            || x == 0x5F || x == 0x2E || x == 0x7E {
            text::push_char(&mut out, text::char_from_ascii(x as u32));
        } else {
            text::push_char(&mut out, '%');
            text::push_char(&mut out, text::hex_digit_upper_exec(x / 16));
            text::push_char(&mut out, text::hex_digit_upper_exec(x % 16));
        }
        assert(b@.take(i + 1).drop_last() == b@.take(i as int));
        assert(out@ == prev + encode_byte(x));
        i += 1;
    }
    assert(b@.take(b@.len() as int) == b@);
    out
}

/// `config`, or `default` when it is empty.
pub open spec fn spec_config_or_default(config: Seq<char>, default: Seq<char>) -> Seq<char> {
    if config.len() == 0 {
        default
    } else {
        config
    }
}

/// `config`, or `default` when it is empty.
pub fn config_or_default(config: &str, default: &str) -> (r: String)
    ensures
        r@ == spec_config_or_default(config@, default@),
{
    let v = text::chars_of(config);
    if v.len() == 0 {
        default.to_owned()
    } else {
        config.to_owned()
    }
}

/// The index of the first character from `j` on that is in `stops`, or the
/// end.
pub open spec fn stop_at(q: Seq<char>, j: int, stops: Seq<char>) -> int
    decreases q.len() - j,
{
    if j < 0 || j >= q.len() {
        q.len() as int
    } else if stops.contains(q[j]) {
        j
    } else {
        stop_at(q, j + 1, stops)
    }
}

/// The host part after the dot at `i`: up to the next `.` or `/`.
pub open spec fn host_after(q: Seq<char>, i: int) -> Seq<char> {
    q.subrange(i + 1, stop_at(q, i + 1, seq!['.', '/']))
}

/// Two or more ASCII letters.
pub open spec fn is_tld(h: Seq<char>) -> bool {
    h.len() >= 2 && forall|k: int| 0 <= k < h.len() ==> text::is_alpha(#[trigger] h[k])
}

/// The extensions that mark a file name rather than a host.
pub open spec fn skip_ext(i: int) -> Seq<char> {
    if i == 0 {
        ".png"@
    } else if i == 1 {
        ".jpg"@
    } else if i == 2 {
        ".jpeg"@
    } else if i == 3 {
        ".gif"@
    } else if i == 4 {
        ".svg"@
    } else if i == 5 {
        ".ico"@
    } else if i == 6 {
        ".bmp"@
    } else if i == 7 {
        ".webp"@
    } else if i == 8 {
        ".pdf"@
    } else if i == 9 {
        ".exe"@
    } else if i == 10 {
        ".lnk"@
    } else if i == 11 {
        ".zip"@
    } else if i == 12 {
        ".txt"@
    } else {
        ".md"@
    }
}

fn skip_ext_exec(i: usize) -> (r: &'static str)
    requires
        i < 14,
    ensures
        r@ == skip_ext(i as int),
{
    if i == 0 {
        ".png"
    } else if i == 1 {
        ".jpg"
    } else if i == 2 {
        ".jpeg"
    } else if i == 3 {
        ".gif"
    } else if i == 4 {
        ".svg"
    } else if i == 5 {
        ".ico"
    } else if i == 6 {
        ".bmp"
    } else if i == 7 {
        ".webp"
    } else if i == 8 {
        ".pdf"
    } else if i == 9 {
        ".exe"
    } else if i == 10 {
        ".lnk"
    } else if i == 11 {
        ".zip"
    } else if i == 12 {
        ".txt"
    } else {
        ".md"
    }
}

/// Whether the trimmed query `q` is a bare URL: a scheme (`http://`,
/// `https://`, `ftp://`, `file://`) or a `www.` start always qualifies;
/// otherwise, with no whitespace and no file extension from the list (in
/// any ASCII case), some dot must be followed by a plausible TLD: two or
/// more ASCII letters up to the next dot or slash.
pub open spec fn spec_looks_like_url(q: Seq<char>) -> bool {
    if q.len() == 0 || exists|i: int| 0 <= i < q.len() && text::is_ws(#[trigger] q[i]) {
        false
    } else if text::starts_with(q, "http://"@) || text::starts_with(q, "https://"@)
        || text::starts_with(q, "ftp://"@) || text::starts_with(q, "file://"@) {
        true
    } else if text::starts_with(q, "www."@) {
        true
    } else if exists|e: int| 0 <= e < 14 && text::ends_with(text::ascii_lower(q), #[trigger] skip_ext(e)) {
        false
    } else {
        exists|i: int| 0 <= i < q.len() && q[i] == '.' && is_tld(#[trigger] host_after(q, i))
    }
}

/// Whether the trimmed query is a bare URL.
pub fn looks_like_url(q: &Vec<char>) -> (b: bool)
    ensures
        b == spec_looks_like_url(q@),
{
    if q.len() == 0 {
        return false;
    }
    let mut i: usize = 0;
    while i < q.len()
        invariant
            i <= q@.len(),
            forall|j: int| 0 <= j < i ==> !text::is_ws(#[trigger] q@[j]),
        decreases q.len() - i,
    {
        if text::is_whitespace(q[i]) {
            return false;
        }
        i += 1;
    }
    assert(q@.skip(0) == q@);
    if text::starts_with_at(q, 0, "http://") || text::starts_with_at(q, 0, "https://")
        || text::starts_with_at(q, 0, "ftp://") || text::starts_with_at(q, 0, "file://") {
        return true;
    }
    if text::starts_with_at(q, 0, "www.") {
        return true;
    }
    let lower = text::lower_chars(q);
    let mut e: usize = 0;
    while e < 14
        invariant
            e <= 14,
            lower@ == text::ascii_lower(q@),
            forall|j: int| 0 <= j < q@.len() ==> !text::is_ws(#[trigger] q@[j]),
            !(text::starts_with(q@, "http://"@) || text::starts_with(q@, "https://"@)
                || text::starts_with(q@, "ftp://"@) || text::starts_with(q@, "file://"@)),
            !text::starts_with(q@, "www."@),
            q@.len() > 0,
            forall|k: int| 0 <= k < e ==> !text::ends_with(text::ascii_lower(q@), #[trigger] skip_ext(k)),
        decreases 14 - e,
    {
        if text::ends_with_str(&lower, skip_ext_exec(e)) {
            assert(text::ends_with(text::ascii_lower(q@), skip_ext(e as int)));
            return false;
        }
        e += 1;
    }
    let mut d: usize = 0;
    let ghost no_ws = forall|j: int| 0 <= j < q@.len() ==> !text::is_ws(#[trigger] q@[j]);
    let ghost no_ext = forall|k: int| 0 <= k < 14 ==> !text::ends_with(text::ascii_lower(q@), #[trigger] skip_ext(k));
    assert(no_ws);
    assert(no_ext);
    while d < q.len()
        invariant
            d <= q@.len(),
            no_ws == forall|j: int| 0 <= j < q@.len() ==> !text::is_ws(#[trigger] q@[j]),
            no_ext == forall|k: int| 0 <= k < 14 ==> !text::ends_with(text::ascii_lower(q@), #[trigger] skip_ext(k)),
            no_ws,
            no_ext,
            !(text::starts_with(q@, "http://"@) || text::starts_with(q@, "https://"@)
                || text::starts_with(q@, "ftp://"@) || text::starts_with(q@, "file://"@)),
            !text::starts_with(q@, "www."@),
            q@.len() > 0,
            forall|k: int| 0 <= k < d && q@[k] == '.' ==> !is_tld(#[trigger] host_after(q@, k)),
        decreases q.len() - d,
    {
        if q[d] == '.' {
            let mut j = d + 1;
            let mut all_alpha = true;
            while j < q.len() && q[j] != '.' && q[j] != '/'
                invariant
                    d + 1 <= j <= q@.len(),
                    q@[d as int] == '.',
                    stop_at(q@, j as int, seq!['.', '/']) == stop_at(q@, d + 1, seq!['.', '/']),
                    all_alpha == forall|k: int| d + 1 <= k < j ==> text::is_alpha(#[trigger] q@[k]),
                decreases q.len() - j,
            {
                assert(!seq!['.', '/'].contains(q@[j as int]));
                all_alpha = all_alpha && text::is_ascii_alpha(q[j]);
                j += 1;
            }
            proof {
                if j < q.len() {
                    assert(seq!['.', '/'].contains(q@[j as int]));
                }
                let h = host_after(q@, d as int);
                assert(h == q@.subrange(d + 1, j as int));
                assert(all_alpha == forall|k: int| 0 <= k < h.len() ==> text::is_alpha(#[trigger] h[k])) by {
                    if all_alpha {
                        assert forall|k: int| 0 <= k < h.len() implies text::is_alpha(#[trigger] h[k]) by {
                            assert(h[k] == q@[d + 1 + k]);
                        }
                    } else {
                        let k = choose|k: int| d + 1 <= k < j && !text::is_alpha(#[trigger] q@[k]);
                        assert(h[k - d - 1] == q@[k]);
                    }
                }
            }
            if j - (d + 1) >= 2 && all_alpha {
                assert(is_tld(host_after(q@, d as int)));
                return true;
            }
        }
        d += 1;
    }
    false
}

/// The text of a bare-URL result: the first 64 characters and `…` when the
/// query is longer than 64 bytes.
pub open spec fn url_display(q: Seq<char>) -> Seq<char> {
    if text::utf8_len(q) > 64 {
        q.take(if q.len() < 64 { q.len() as int } else { 64 }) + "…"@
    } else {
        q
    }
}

/// What a bare URL opens: itself when it has a scheme, else `https://` and it.
pub open spec fn url_target(q: Seq<char>) -> Seq<char> {
    if text::contains_seq(q, "://"@) {
        q
    } else {
        "https://"@ + q
    }
}

/// The "open this URL" row for a query that is a bare URL.
pub fn url_result(query: &str) -> (r: Option<SearchResult>)
    ensures
        r is Some <==> spec_looks_like_url(text::trim(query@)),
        r matches Some(x) ==> {
            let q = text::trim(query@);
            &&& x.title@ == "Open "@ + url_display(q)
            &&& x.subtitle@ == url_target(q)
            &&& x.kind@ == "websearch"@
            &&& x.provider_id@ == "websearch"@
            &&& x.action@ == url_target(q)
            &&& x.icon_rgba is None
            &&& x.score == 850
        },
{
    let v = text::chars_of(query);
    let q = text::trim_chars(&v);
    if !looks_like_url(&q) {
        return None;
    }
    let n = text::utf8_len_of(&q);
    let mut title = String::new();
    text::push_all(&mut title, "Open ");
    if n > 64 {
        let k = if q.len() < 64 {
            q.len()
        } else {
            64
        };
        text::push_all(&mut title, text::string_of(&q, 0, k).as_str());
        text::push_all(&mut title, "…");
    } else {
        text::push_all(&mut title, text::string_of(&q, 0, q.len()).as_str());
        assert(q@.subrange(0, q@.len() as int) == q@);
    }
    let sep: Vec<char> = vec![':', '/', '/'];
    proof {
        reveal_strlit("://");
        assert(sep@ == "://"@);
    }
    let open = if text::contains_exec(&q, &sep) {
        assert(q@.subrange(0, q@.len() as int) == q@);
        text::string_of(&q, 0, q.len())
    } else {
        let s = text::string_of(&q, 0, q.len());
        assert(q@.subrange(0, q@.len() as int) == q@);
        text::concat("https://", s.as_str())
    };
    let action = open.clone();
    Some(plain_result(title, open, "websearch", "websearch", action, 850))
}

/// The host of a URL template: after its first `://` (up to the next
/// `://`), or the whole template, cut at the first `/`.
pub open spec fn template_host(t: Seq<char>) -> Seq<char> {
    let part = match text::find_from(t, "://"@, 0) {
        None => t,
        Some(k) => {
            let after = t.skip(k + 3);
            match text::find_from(after, "://"@, 0) {
                None => after,
                Some(e) => after.take(e),
            }
        },
    };
    part.take(text::first_where(part, 0, |c: char| c == '/'))
}

/// The site's name from a URL template: the host without `www.`, up to its
/// first dot, with well-known names spelled properly and others given a
/// capital first letter; the host itself when that name is empty.
pub open spec fn spec_site_name(t: Seq<char>) -> Seq<char> {
    let host = template_host(t);
    let stripped = if text::starts_with(host, "www."@) {
        host.skip(4)
    } else {
        host
    };
    let name = stripped.take(text::first_where(stripped, 0, |c: char| c == '.'));
    if name == "youtube"@ {
        "YouTube"@
    } else if name == "github"@ {
        "GitHub"@
    } else if name == "wikipedia"@ {
        "Wikipedia"@
    } else if name.len() > 0 {
        text::unicode_upper(name[0]) + name.drop_first()
    } else {
        host
    }
}

/// "https://www.youtube.com/..." → "YouTube".
pub fn site_name(template: &str) -> (r: String)
    ensures
        r@ == spec_site_name(template@),
{
    let t = text::chars_of(template);
    let sep: Vec<char> = vec![':', '/', '/'];
    proof {
        reveal_strlit("://");
        assert(sep@ == "://"@);
    }
    let part: Vec<char> = match text::find_from_exec(&t, &sep, 0) {
        None => t.clone(),
        Some(k) => {
            proof {
                text::lemma_find_from(t@, sep@, 0);
                assert(text::find_from(t@, sep@, 0) == Some(k as int));
                assert(text::occurs_at(t@, sep@, k as int));
                assert(sep@.len() == 3);
                assert(k + 3 <= t@.len());
            }
            let tl = t.len();
            assert(k + 3 <= tl);
            let after = text::subvec(&t, k + 3, t.len());
            assert(after@ == t@.skip(k + 3));
            match text::find_from_exec(&after, &sep, 0) {
                None => after,
                Some(e) => {
                    proof {
                        text::lemma_find_from(after@, sep@, 0);
                        assert(text::find_from(after@, sep@, 0) == Some(e as int));
                        assert(text::occurs_at(after@, sep@, e as int));
                    }
                    text::subvec(&after, 0, e)
                },
            }
        },
    };
    let slash: Vec<char> = vec!['/'];
    let hend = text::first_of(&part, 0, &slash);
    proof {
        assert(forall|c: char| (slash@.contains(c)) == (c == '/')) by {
            assert forall|c: char| slash@.contains(c) == (c == '/') by {
                if c == '/' {
                    assert(slash@[0] == c);
                }
            }
        }
        assert((|c: char| slash@.contains(c)) == (|c: char| c == '/'));
    }
    let host = text::subvec(&part, 0, hend);
    proof {
        reveal_strlit("www.");
    }
    let stripped = if text::starts_with_at(&host, 0, "www.") {
        assert(host@.skip(0) == host@);
        text::subvec(&host, 4, host.len())
    } else {
        assert(host@.skip(0) == host@);
        text::subvec(&host, 0, host.len())
    };
    let dot: Vec<char> = vec!['.'];
    let nend = text::first_of(&stripped, 0, &dot);
    proof {
        assert forall|c: char| dot@.contains(c) == (c == '.') by {
            if c == '.' {
                assert(dot@[0] == c);
            }
        }
        assert((|c: char| dot@.contains(c)) == (|c: char| c == '.'));
    }
    let name = text::subvec(&stripped, 0, nend);
    if text::eq_str(&name, "youtube") {
        "YouTube".to_owned()
    } else if text::eq_str(&name, "github") {
        "GitHub".to_owned()
    } else if text::eq_str(&name, "wikipedia") {
        "Wikipedia".to_owned()
    } else if name.len() > 0 {
        let mut out = text::char_to_uppercase(name[0]);
        let rest = text::string_of(&name, 1, name.len());
        text::push_all(&mut out, rest.as_str());
        assert(name@.subrange(1, name@.len() as int) == name@.drop_first());
        out
    } else {
        let r = text::string_of(&host, 0, host.len());
        assert(host@.subrange(0, host@.len() as int) == host@);
        r
    }
}

/// The template configured for a prefix key (the first pair with that key).
pub open spec fn lookup_prefix(prefixes: Seq<(String, String)>, key: Seq<char>) -> Option<Seq<char>>
    decreases prefixes.len(),
{
    if prefixes.len() == 0 {
        None
    } else if prefixes[0].0@ == key {
        Some(prefixes[0].1@)
    } else {
        lookup_prefix(prefixes.drop_first(), key)
    }
}

/// A per-site query: the trimmed query's first word (before its first
/// whitespace) names a configured prefix (lower-cased), and some text
/// follows it. Gives the template and the trimmed text.
pub open spec fn spec_prefix_parts(query: Seq<char>, prefixes: Seq<(String, String)>) -> Option<(Seq<char>, Seq<char>)> {
    let t = text::trim(query);
    let k = text::first_where(t, 0, |c: char| text::is_ws(c));
    if k >= t.len() {
        None
    } else {
        let rest = text::trim(t.skip(k + 1));
        if rest.len() == 0 {
            None
        } else {
            match lookup_prefix(prefixes, text::unicode_lower(t.take(k))) {
                None => None,
                Some(template) => Some((template, rest)),
            }
        }
    }
}

fn lookup_prefix_exec(prefixes: &Vec<(String, String)>, key: &str) -> (r: Option<String>)
    ensures
        match lookup_prefix(prefixes@, key@) {
            Some(t) => r matches Some(s) && s@ == t,
            None => r is None,
        },
{
    let kv = text::chars_of(key);
    let mut i: usize = 0;
    assert(prefixes@.skip(0) == prefixes@);
    while i < prefixes.len()
        invariant
            i <= prefixes@.len(),
            kv@ == key@,
            lookup_prefix(prefixes@.skip(i as int), key@) == lookup_prefix(prefixes@, key@),
        decreases prefixes.len() - i,
    {
        assert(prefixes@.skip(i as int)[0] == prefixes@[i as int]);
        assert(prefixes@.skip(i as int).drop_first() == prefixes@.skip(i + 1));
        let pk = text::chars_of(prefixes[i].0.as_str());
        if text::eq_str(&pk, key) {
            return Some(prefixes[i].1.clone());
        }
        i += 1;
    }
    None
}

/// `yt cats` → a search on the site configured for `yt`.
pub fn prefix_search(query: &str, prefixes: &Vec<(String, String)>) -> (r: Option<SearchResult>)
    ensures
        r is Some <==> spec_prefix_parts(query@, prefixes@) is Some,
        r matches Some(x) ==> {
            let (template, rest) = spec_prefix_parts(query@, prefixes@).unwrap();
            &&& x.title@ == "Search "@ + spec_site_name(template) + " for \""@ + rest + "\""@
            &&& x.subtitle@ == "Open in your browser"@
            &&& x.kind@ == "websearch"@
            &&& x.provider_id@ == "websearch"@
            &&& x.action@ == text::replace_all(template, "%s"@, spec_encode_query(rest))
            &&& x.icon_rgba is None
            &&& x.score == 800
        },
{
    let v = text::chars_of(query);
    let t = text::trim_chars(&v);
    let mut k: usize = 0;
    while k < t.len() && !text::is_whitespace(t[k])
        invariant
            k <= t@.len(),
            text::first_where(t@, k as int, |c: char| text::is_ws(c)) == text::first_where(t@, 0, |c: char| text::is_ws(c)),
        decreases t.len() - k,
    {
        k += 1;
    }
    if k >= t.len() {
        return None;
    }
    let after = text::subvec(&t, k + 1, t.len());
    let rest = text::trim_chars(&after);
    assert(after@ == t@.skip(k + 1));
    if rest.len() == 0 {
        return None;
    }
    let head = text::string_of(&t, 0, k);
    let key = text::to_lowercase(head.as_str());
    let template = match lookup_prefix_exec(prefixes, key.as_str()) {
        Some(x) => x,
        None => return None,
    };
    let rest_s = text::string_of(&rest, 0, rest.len());
    assert(rest@.subrange(0, rest@.len() as int) == rest@);
    let site = site_name(template.as_str());
    let mut title = String::new();
    text::push_all(&mut title, "Search ");
    text::push_all(&mut title, site.as_str());
    text::push_all(&mut title, " for \"");
    text::push_all(&mut title, rest_s.as_str());
    text::push_all(&mut title, "\"");
    let enc = encode_query(rest_s.as_str());
    proof {
        reveal_strlit("%s");
    }
    let action = text::replace_str(template.as_str(), "%s", enc.as_str());
    Some(plain_result(title, "Open in your browser".to_owned(), "websearch", "websearch", action, 800))
}

/// The plain web-search row: the configured URL (or the default) with the
/// encoded query in place of `%s`.
pub open spec fn web_action(query: Seq<char>, search_url: Seq<char>) -> Seq<char> {
    text::replace_all(spec_config_or_default(search_url, default_search_url()), "%s"@, spec_encode_query(query))
}

/// The site prefixes configured by default: `yt`, `gh`, `w`.
pub open spec fn default_prefixes_spec() -> Seq<(Seq<char>, Seq<char>)> {
    seq![
        ("yt"@, "https://www.youtube.com/results?search_query=%s"@),
        ("gh"@, "https://github.com/search?q=%s"@),
        ("w"@, "https://en.wikipedia.org/w/index.php?search=%s"@),
    ]
}

/// The site prefixes configured by default.
pub fn default_prefixes() -> (r: Vec<(String, String)>)
    ensures
        r@.map_values(|p: (String, String)| (p.0@, p.1@)) == default_prefixes_spec(),
{
    let mut r: Vec<(String, String)> = Vec::new();
    r.push(("yt".to_owned(), "https://www.youtube.com/results?search_query=%s".to_owned()));
    r.push(("gh".to_owned(), "https://github.com/search?q=%s".to_owned()));
    r.push(("w".to_owned(), "https://en.wikipedia.org/w/index.php?search=%s".to_owned()));
    assert(r@.map_values(|p: (String, String)| (p.0@, p.1@)) == default_prefixes_spec());
    r
}

pub struct WebSearchProvider;

impl WebSearchProvider {
    /// Runs on any query that is not blank.
    pub fn should_run(&self, query: &str) -> (b: bool)
        ensures
            b == (text::trim(query@).len() > 0),
    {
        let v = text::chars_of(query);
        text::trim_chars(&v).len() > 0
    }

    /// One row: a bare URL opens directly (score 850); else a configured
    /// site prefix searches that site (score 800); else a web search with
    /// `search_url` (or the default) at the bottom (score -1).
    pub fn search(&self, query: &str, search_url: &str, prefixes: &Vec<(String, String)>) -> (r: Vec<SearchResult>)
        ensures
            r.len() == 1,
            spec_looks_like_url(text::trim(query@)) ==> r[0].score == 850 && r[0].action@ == url_target(text::trim(query@)),
            !spec_looks_like_url(text::trim(query@)) && spec_prefix_parts(query@, prefixes@) is Some ==> {
                let (template, rest) = spec_prefix_parts(query@, prefixes@).unwrap();
                &&& r[0].score == 800
                &&& r[0].title@ == "Search "@ + spec_site_name(template) + " for \""@ + rest + "\""@
                &&& r[0].action@ == text::replace_all(template, "%s"@, spec_encode_query(rest))
            },
            !spec_looks_like_url(text::trim(query@)) && spec_prefix_parts(query@, prefixes@) is None ==> {
                &&& r[0].title@ == "Search web for \""@ + query@ + "\""@
                &&& r[0].subtitle@ == "Open in your browser"@
                &&& r[0].kind@ == "websearch"@
                &&& r[0].provider_id@ == "websearch"@
                &&& r[0].action@ == web_action(query@, search_url@)
                &&& r[0].icon_rgba is None
                &&& r[0].score == -1
            },
            r[0].kind@ == "websearch"@,
            r[0].provider_id@ == "websearch"@,
    {
        let mut out: Vec<SearchResult> = Vec::new();
        match url_result(query) {
            Some(x) => {
                out.push(x);
                return out;
            },
            None => {},
        }
        match prefix_search(query, prefixes) {
            Some(x) => {
                out.push(x);
                return out;
            },
            None => {},
        }
        let url = config_or_default(search_url, "https://duckduckgo.com/search?q=%s");
        let enc = encode_query(query);
        proof {
            reveal_strlit("%s");
        }
        let action = text::replace_str(url.as_str(), "%s", enc.as_str());
        let mut title = String::new();
        text::push_all(&mut title, "Search web for \"");
        text::push_all(&mut title, query);
        text::push_all(&mut title, "\"");
        out.push(plain_result(title, "Open in your browser".to_owned(), "websearch", "websearch", action, -1));
        out
    }
}

} // verus!
