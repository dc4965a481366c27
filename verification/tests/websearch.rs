use element::providers::websearch::{
    config_or_default, default_prefixes, encode_query, looks_like_url, site_name, WebSearchProvider,
};

fn url(q: &str) -> bool {
    looks_like_url(&q.chars().collect())
}

#[test]
fn encodes_query_for_url_substitution() {
    assert_eq!(encode_query("cats & dogs"), "cats%20%26%20dogs");
    assert_eq!(encode_query("a/b?c=d"), "a%2Fb%3Fc%3Dd");
}

#[test]
fn encodes_non_ascii_bytes() {
    assert_eq!(encode_query("é"), "%C3%A9");
    assert_eq!(encode_query("a-b_c.d~"), "a-b_c.d~");
}

#[test]
fn prefix_query_builds_site_url() {
    let provider = WebSearchProvider;
    let prefixes = default_prefixes();
    let results = provider.search("yt cats & dogs", "https://duckduckgo.com/search?q=%s", &prefixes);
    assert_eq!(results.len(), 1);
    assert_eq!(results[0].title, "Search YouTube for \"cats & dogs\"");
    assert_eq!(
        results[0].action,
        "https://www.youtube.com/results?search_query=cats%20%26%20dogs"
    );
    assert_eq!(results[0].score, 800);
}

#[test]
fn prefix_case_insensitive_and_requires_term() {
    let provider = WebSearchProvider;
    let prefixes = default_prefixes();
    let results = provider.search("GH element", "", &prefixes);
    assert_eq!(results[0].title, "Search GitHub for \"element\"");

    // Prefix alone (no term) falls through to the plain web search.
    let results = provider.search("yt", "", &prefixes);
    assert_eq!(results[0].title, "Search web for \"yt\"");
    assert_eq!(results[0].score, -1);
}

#[test]
fn unknown_prefix_falls_through() {
    let provider = WebSearchProvider;
    let prefixes = default_prefixes();
    let results = provider.search("zzz something", "", &prefixes);
    assert_eq!(results[0].title, "Search web for \"zzz something\"");
    assert_eq!(
        results[0].action,
        "https://duckduckgo.com/search?q=zzz%20something"
    );
}

#[test]
fn bare_url_opens_directly() {
    let provider = WebSearchProvider;
    let prefixes = default_prefixes();

    // With scheme
    let results = provider.search("https://github.com/vaibhxvvy/element", "", &prefixes);
    assert_eq!(results.len(), 1);
    assert_eq!(results[0].title, "Open https://github.com/vaibhxvvy/element");
    assert_eq!(results[0].action, "https://github.com/vaibhxvvy/element");
    assert_eq!(results[0].score, 850);

    // Bare host gains https://
    let results = provider.search("example.com/docs", "", &prefixes);
    assert_eq!(results[0].action, "https://example.com/docs");

    // www. host
    let results = provider.search("www.youtube.com", "", &prefixes);
    assert_eq!(results[0].action, "https://www.youtube.com");
}

#[test]
fn non_urls_stay_searches() {
    let provider = WebSearchProvider;
    let prefixes = default_prefixes();

    // Decimals, file extensions and plain phrases are not URLs.
    for q in ["12.5", "readme.md", "cat photo", "v1.1.0", "192.168.1.1"] {
        let results = provider.search(q, "", &prefixes);
        assert_eq!(results[0].score, -1, "query {q:?} should stay a search");
    }
}

#[test]
fn url_heuristic_edges() {
    assert!(url("ftp://host"));
    assert!(url("docs.rs/verus"));
    assert!(!url(""));
    assert!(!url("a.b"));
    assert!(!url("photo.PNG"));
    assert!(!url("a b.com"));
}

#[test]
fn long_urls_are_shortened_in_the_title() {
    let provider = WebSearchProvider;
    let long = format!("https://example.com/{}", "a".repeat(60));
    let results = provider.search(&long, "", &Vec::new());
    assert!(results[0].title.ends_with('…'));
    assert_eq!(results[0].title.chars().count(), "Open ".len() + 64 + 1);
    assert_eq!(results[0].action, long);
}

#[test]
fn site_names_and_defaults() {
    assert_eq!(site_name("https://www.youtube.com/results?q=%s"), "YouTube");
    assert_eq!(site_name("https://duckduckgo.com/?q=%s"), "Duckduckgo");
    assert_eq!(site_name("https://en.wikipedia.org/w?search=%s"), "En");
    assert_eq!(config_or_default("", "d"), "d");
    assert_eq!(config_or_default("c", "d"), "c");
    assert!(WebSearchProvider.should_run(" x "));
    assert!(!WebSearchProvider.should_run("   "));
}
