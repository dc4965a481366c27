//! Help provider: `help` opens the in-launcher manual panel.
use vstd::prelude::*;
use crate::text;
use super::{plain_result, SearchResult};

verus! {

/// `q` (already trimmed and lower-cased) is the word `word` alone or
/// followed by a space.
pub open spec fn is_command(q: Seq<char>, word: Seq<char>, word_space: Seq<char>) -> bool {
    q == word || text::starts_with(q, word_space)
}

pub struct HelpProvider;

impl HelpProvider {
    /// Runs on `help` or `help <anything>`, in any ASCII case, ignoring
    /// surrounding whitespace.
    pub fn should_run(&self, query: &str) -> (b: bool)
        ensures
            b == is_command(text::ascii_lower(text::trim(query@)), "help"@, "help "@),
    {
        let v = text::chars_of(query);
        let t = text::trim_chars(&v);
        let q = text::lower_chars(&t);
        let r = text::eq_str(&q, "help") || text::starts_with_at(&q, 0, "help ");
        assert(q@.skip(0) == q@);
        r
    }

    /// The single "Open Help" entry; the UI switches to the help view when a
    /// result of kind `help` is chosen.
    pub fn search(&self, _query: &str) -> (r: Vec<SearchResult>)
        ensures
            r.len() == 1,
            r[0].title@ == "Open Help"@,
            r[0].subtitle@ == "Manual — hotkeys, commands, and tips"@,
            r[0].kind@ == "help"@,
            r[0].provider_id@ == "help"@,
            r[0].action@ == "open"@,
            r[0].icon_rgba is None,
            r[0].score == 1000,
    {
        let mut r = Vec::new();
        r.push(
            plain_result(
                "Open Help".to_owned(),
                "Manual — hotkeys, commands, and tips".to_owned(),
                "help",
                "help",
                "open".to_owned(),
                1000,
            ),
        );
        r
    }
}

} // verus!
