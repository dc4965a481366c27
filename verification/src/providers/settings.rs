//! Settings provider: `settings` opens the in-launcher settings panel.
use vstd::prelude::*;
use crate::text;
use super::{plain_result, SearchResult};

verus! {

pub struct SettingsProvider;

impl SettingsProvider {
    /// Runs on `settings` or `settings <anything>`, in any ASCII case,
    /// ignoring surrounding whitespace.
    pub fn should_run(&self, query: &str) -> (b: bool)
        ensures
            b == super::help::is_command(
                text::ascii_lower(text::trim(query@)),
                "settings"@,
                "settings "@,
            ),
    {
        let v = text::chars_of(query);
        let t = text::trim_chars(&v);
        let q = text::lower_chars(&t);
        let r = text::eq_str(&q, "settings") || text::starts_with_at(&q, 0, "settings ");
        assert(q@.skip(0) == q@);
        r
    }

    /// The single "Open Settings" entry; the UI switches to the settings
    /// view when a result of kind `settings` is chosen.
    pub fn search(&self, _query: &str) -> (r: Vec<SearchResult>)
        ensures
            r.len() == 1,
            r[0].title@ == "Open Settings"@,
            r[0].subtitle@ == "Configure Element — width, search engine, accent, autostart"@,
            r[0].kind@ == "settings"@,
            r[0].provider_id@ == "settings"@,
            r[0].action@ == "open"@,
            r[0].icon_rgba is None,
            r[0].score == 1000,
    {
        let mut r = Vec::new();
        r.push(
            plain_result(
                "Open Settings".to_owned(),
                "Configure Element — width, search engine, accent, autostart".to_owned(),
                "settings",
                "settings",
                "open".to_owned(),
                1000,
            ),
        );
        r
    }
}

} // verus!
