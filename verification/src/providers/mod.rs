//! Search providers: each turns a query into scored, actionable results.
use vstd::prelude::*;

pub mod apps;
pub mod calculator;
pub mod clipboard;
pub mod color;
pub mod emoji;
pub mod files;
pub mod help;
pub mod settings;
pub mod snippets;
pub mod system;
pub mod units;
pub mod websearch;

verus! {

/// One actionable search result, owned by the provider that produced it.
///
/// `action` carries the provider-owned data that activates this exact
/// result. `score` ranks results (higher first), in whole points.
pub struct SearchResult {
    pub title: String,
    pub subtitle: String,
    pub kind: String,
    pub provider_id: String,
    pub action: String,
    pub icon_rgba: Option<(Vec<u8>, u32, u32)>,
    pub score: i64,
}

/// A result without an icon.
pub fn plain_result(
    title: String,
    subtitle: String,
    kind: &str,
    provider_id: &str,
    action: String,
    score: i64,
) -> (r: SearchResult)
    ensures
        r.title@ == title@,
        r.subtitle@ == subtitle@,
        r.kind@ == kind@,
        r.provider_id@ == provider_id@,
        r.action@ == action@,
        r.icon_rgba is None,
        r.score == score,
{
    SearchResult {
        title,
        subtitle,
        kind: kind.to_owned(),
        provider_id: provider_id.to_owned(),
        action,
        icon_rgba: None,
        score,
    }
}

/// A result row as values: title, subtitle, kind, provider, action, icon,
/// score.
pub type RowView = (Seq<char>, Seq<char>, Seq<char>, Seq<char>, Seq<char>, Option<(Seq<u8>, u32, u32)>, i64);

pub open spec fn row_view(r: SearchResult) -> RowView {
    (
        r.title@,
        r.subtitle@,
        r.kind@,
        r.provider_id@,
        r.action@,
        match r.icon_rgba {
            Some((px, w, h)) => Some((px@, w, h)),
            None => None,
        },
        r.score,
    )
}

} // verus!
