use element::providers::clipboard::{
    date_window, day_modifier, image_result, is_iso_date, like_pattern, parse_last_days,
    set_newest_first, text_result, ClipImage, ClipText, ClipboardProvider, DateFilter, DateWindow,
};

fn entry(text: &str, id: i64, pinned: bool) -> ClipText {
    ClipText { text: text.to_string(), ts: "2026-08-05 10:00".to_string(), pinned, id }
}

#[test]
fn date_helpers() {
    assert!(is_iso_date("2026-08-05"));
    assert!(!is_iso_date("05-08-2026"));
    assert!(!is_iso_date("2026-8-5"));
    assert!(!is_iso_date("tomorrow"));
    assert_eq!(parse_last_days("last7d"), Some(7));
    assert_eq!(parse_last_days("last30d"), Some(30));
    assert_eq!(parse_last_days("last1d"), Some(1));
    assert_eq!(parse_last_days("last7h"), None);
    assert_eq!(parse_last_days("week"), None);
}

#[test]
fn clipboard_trigger_words() {
    let p = ClipboardProvider { newest_first: true };
    assert!(p.should_run("clip"));
    assert!(p.should_run("  CBHIST "));
    assert!(p.should_run("clipboard rust"));
    assert!(!p.should_run("cbhistory"));
    assert!(!p.should_run("paste"));
}

#[test]
fn query_grammar_sets_filters() {
    let mut p = ClipboardProvider { newest_first: true };
    let q = p.plan("clip rust code sort:old today", 0);
    assert_eq!(q.limit, 1);
    assert!(!q.newest_first);
    assert_eq!(q.text_like.as_deref(), Some("rust code"));
    assert!(matches!(q.date, Some(DateFilter::Today)));
    let q = p.plan("clip 2026-08-05 last7d", 50);
    assert_eq!(q.limit, 50);
    assert!(q.newest_first);
    assert!(q.text_like.is_none());
    assert!(matches!(q.date, Some(DateFilter::LastDays(7))));
    set_newest_first(&mut p, false);
    let q = p.plan("clip Yesterday", 100);
    assert!(!q.newest_first);
    assert!(matches!(q.date, Some(DateFilter::Yesterday)));
    let q = p.plan("clip 2026-08-05", 100);
    match q.date {
        Some(DateFilter::Exact(d)) => assert_eq!(d, "2026-08-05"),
        _ => panic!("expected an exact date"),
    }
}

#[test]
fn newest_first_and_oldest_first_order() {
    let p = ClipboardProvider { newest_first: true };
    let texts = || (0..4).map(|i| entry(&format!("entry {i}"), i, false)).collect::<Vec<_>>();
    let results = p.results(texts(), Vec::new(), true);
    assert_eq!(results[0].title, "entry 3", "newest on top");
    assert_eq!(results[3].title, "entry 0");
    let results = p.results(texts(), Vec::new(), false);
    assert_eq!(results[0].title, "entry 0", "oldest first");
    assert_eq!(results[3].title, "entry 3");
}

#[test]
fn pinned_rows_come_first() {
    let p = ClipboardProvider { newest_first: true };
    let texts = vec![entry("old pinned", 1, true), entry("new", 5, false), entry("newer", 6, false)];
    let results = p.results(texts, Vec::new(), true);
    assert_eq!(results[0].title, "\u{1f4cc} old pinned");
    assert_eq!(results[0].subtitle, "Clipboard \u{00b7} 2026-08-05 10:00 \u{00b7} pinned");
    assert_eq!(results[1].title, "newer");
    assert_eq!(results[2].title, "new");
}

#[test]
fn images_merge_and_obey_sort() {
    let p = ClipboardProvider { newest_first: true };
    let img = ClipImage {
        path: "C:\\cache\\img.png".to_string(),
        width: 10,
        height: 10,
        ts: "t".to_string(),
        pinned: false,
        id: 1,
        thumb: None,
    };
    let results = p.results(vec![entry("text after image", 2, false)], vec![img], true);
    assert_eq!(results[0].title, "text after image", "newest capture on top");
    assert_eq!(results[1].title, "Image \u{00b7} 10\u{00d7}10");
    assert!(results.iter().any(|r| r.kind == "clipboard-image"));
}

#[test]
fn text_preview_is_first_line_up_to_80_chars() {
    let r = text_result(&entry("first line\r\nsecond", 1, false));
    assert_eq!(r.title, "first line");
    assert_eq!(r.action, "first line\r\nsecond");
    assert_eq!(r.score, 200);
    let long = "x".repeat(100);
    let r = text_result(&entry(&long, 1, false));
    assert_eq!(r.title.chars().count(), 80);
    let r = image_result(ClipImage {
        path: "p.png".to_string(),
        width: 3,
        height: 4,
        ts: "t".to_string(),
        pinned: true,
        id: 9,
        thumb: Some((vec![1, 2, 3, 4], 1, 1)),
    });
    assert_eq!(r.title, "\u{1f4cc} Image \u{00b7} 3\u{00d7}4");
    assert_eq!(r.kind, "clipboard-image");
    assert_eq!(r.icon_rgba, Some((vec![1, 2, 3, 4], 1, 1)));
}

#[test]
fn like_pattern_escapes_wildcards() {
    assert_eq!(like_pattern("rust"), "%rust%");
    assert_eq!(like_pattern("50%_a\\b"), "%50\\%\\_a\\\\b%");
}

#[test]
fn date_windows_and_modifiers() {
    assert!(matches!(date_window(&DateFilter::Today), DateWindow::Days(0, 0)));
    assert!(matches!(date_window(&DateFilter::Yesterday), DateWindow::Days(-1, -1)));
    assert!(matches!(date_window(&DateFilter::LastDays(7)), DateWindow::Days(-7, 0)));
    match date_window(&DateFilter::Exact("2026-08-05".to_string())) {
        DateWindow::Exact(d) => assert_eq!(d, "2026-08-05"),
        _ => panic!("expected an exact date"),
    }
    assert_eq!(day_modifier(0), "+0 days");
    assert_eq!(day_modifier(-7), "-7 days");
    assert_eq!(day_modifier(3), "+3 days");
}
