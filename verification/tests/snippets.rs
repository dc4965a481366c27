use element::providers::snippets::{sorted_by_name, SnippetsProvider};

fn items(list: &[(&str, &str)]) -> Vec<(String, String)> {
    list.iter().map(|(a, b)| (a.to_string(), b.to_string())).collect()
}

#[test]
fn snippets_are_sorted_by_name() {
    let sorted = sorted_by_name(items(&[("zeta", "z"), ("alpha", "hello world"), ("email", "a@b.c")]));
    assert_eq!(sorted.len(), 3);
    assert_eq!(sorted[0].0, "alpha");
    assert_eq!(sorted[0].1, "hello world");
    assert_eq!(sorted[2].0, "zeta");
}

#[test]
fn listing_filters_by_term() {
    let provider = SnippetsProvider::new(items(&[("email", "you@example.com"), ("phone", "+1 555")]));
    // snip lists everything, sorted
    let results = provider.search("snip");
    assert_eq!(results.len(), 2);
    assert_eq!(results[0].title, "email");
    assert_eq!(results[0].kind, "snippet");
    assert_eq!(results[0].score, 500);
    assert_eq!(results[1].score, 499);
    // snip with a term filters on name or text
    let results = provider.search("snip example");
    assert_eq!(results.len(), 1);
    assert_eq!(results[0].title, "email");
}

#[test]
fn exact_name_match_scores_high() {
    let provider = SnippetsProvider::new(items(&[("email", "you@example.com")]));
    let results = provider.search("email");
    assert_eq!(results.len(), 1);
    assert_eq!(results[0].action, "you@example.com");
    assert_eq!(results[0].score, 700);
    assert!(provider.should_run("email"));
    assert!(provider.should_run(" EMAIL "));
    assert!(!provider.should_run("ema"));
    assert!(provider.should_run("snippet"));
    assert!(!provider.should_run(""));
}

#[test]
fn long_texts_are_cut_in_the_subtitle() {
    let long = "y".repeat(50);
    let mut provider = SnippetsProvider::new(Vec::new());
    provider.set_snippets(items(&[("sig", &long)]));
    let results = provider.search("sig");
    assert_eq!(results[0].subtitle, format!("{}…", "y".repeat(48)));
    assert_eq!(results[0].action, long);
}

#[test]
fn listing_is_capped() {
    let many: Vec<(String, String)> = (0..20).map(|i| (format!("n{i:02}"), "t".to_string())).collect();
    let provider = SnippetsProvider::new(many);
    assert_eq!(provider.search("snippet").len(), 15);
}

#[test]
fn sorting_keeps_every_snippet_in_name_order() {
    let sorted = sorted_by_name(items(&[
        ("b", "1"),
        ("Zed", "2"),
        ("ab", "3"),
        ("a", "4"),
        ("b", "5"),
    ]));
    let names: Vec<&str> = sorted.iter().map(|p| p.0.as_str()).collect();
    assert_eq!(names, vec!["Zed", "a", "ab", "b", "b"]);
    // equal names keep their first-come order
    assert_eq!(sorted[3].1, "1");
    assert_eq!(sorted[4].1, "5");
}
