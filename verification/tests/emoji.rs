use element::providers::emoji::{search_in, EmojiEntry, EmojiProvider};

fn e(glyph: &str, name: &str, codes: &[&str]) -> EmojiEntry {
    EmojiEntry {
        glyph: glyph.to_string(),
        name: name.to_string(),
        shortcodes: codes.iter().map(|c| c.to_string()).collect(),
    }
}

#[test]
fn emoji_trigger() {
    assert!(EmojiProvider.should_run("emoji smile"));
    assert!(EmojiProvider.should_run(" :cat"));
    assert!(!EmojiProvider.should_run("smile"));
}

#[test]
fn emoji_matches_name_or_shortcode() {
    let cat = vec![
        e("😀", "grinning face", &["grinning"]),
        e("🐱", "cat face", &["cat"]),
        e("😸", "grinning cat", &["smile_cat"]),
    ];
    let r = search_in(&cat, "emoji cat");
    assert_eq!(r.len(), 2);
    assert_eq!(r[0].title, "🐱  :cat:");
    assert_eq!(r[0].subtitle, "cat face");
    assert_eq!(r[0].action, "🐱");
    assert_eq!(r[0].score, 500);
    assert_eq!(r[1].score, 499);
    let r = search_in(&cat, "::smile");
    assert_eq!(r.len(), 1);
    assert_eq!(r[0].action, "😸");
    assert_eq!(search_in(&cat, ":").len(), 3);
}

#[test]
fn emoji_list_stops_at_20() {
    let many: Vec<EmojiEntry> = (0..30).map(|i| e("x", &format!("thing {i}"), &[])).collect();
    let r = search_in(&many, "emoji");
    assert_eq!(r.len(), 20);
    assert_eq!(r[0].title, "x  ");
    assert_eq!(r[19].score, 481);
}

#[test]
fn real_catalogue_finds_rocket() {
    let r = EmojiProvider.search(":rocket");
    assert!(r.iter().any(|x| x.action == "🚀"));
    assert!(r.len() <= 20);
}

#[test]
fn bare_emoji_query_lists_the_first_emoji() {
    let rows = EmojiProvider.search("emoji");
    assert_eq!(rows.len(), 20);
    let firsts: Vec<&str> = rows.iter().take(5).map(|r| r.title.split("  ").next().unwrap()).collect();
    assert_eq!(firsts, vec!["😀", "😃", "😄", "😁", "😆"]);
}
