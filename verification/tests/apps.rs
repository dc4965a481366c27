use element::providers::apps::{
    fuzzy_overruns, fuzzy_parts, is_executable_path, is_ico_path, AppsProvider, InstalledApp,
};

fn app(name: &str, exe: &str) -> InstalledApp {
    InstalledApp { name: name.to_string(), executable_path: exe.to_string(), icon_rgba: None }
}

#[test]
fn only_executable_targets_are_indexed() {
    assert!(is_executable_path("C:\\Apps\\Element.EXE"));
    assert!(!is_executable_path("C:\\Apps\\Element.lnk"));
}

#[test]
fn extension_edge_cases() {
    assert!(is_ico_path("C:\\icons\\app.ico"));
    assert!(!is_executable_path(".exe"));
    assert!(!is_executable_path("C:\\Apps\\exe"));
    assert!(is_executable_path("C:/Apps/tool.Exe/"));
}

#[test]
fn recommendations_dedupe_legacy_and_executable_frecency_keys() {
    let executable_path = r"C:\\Apps\\Example.exe".to_string();
    let mut provider = AppsProvider::new(Vec::new());
    provider.apps.push(app("Example", &executable_path));
    let keys = vec!["Example".to_string(), executable_path.clone()];
    let results = provider.recommendations(&keys, 12);
    assert_eq!(results.len(), 1);
    assert_eq!(results[0].action, executable_path);
    assert_eq!(results[0].score, 200);
}

#[test]
fn recommendations_fill_up_to_limit() {
    let mut provider = AppsProvider::new(Vec::new());
    for i in 0..5 {
        provider.apps.push(app(&format!("App {i}"), &format!("C:\\a{i}.exe")));
    }
    let results = provider.recommendations(&vec!["C:\\a3.exe".to_string()], 3);
    assert_eq!(results.len(), 3);
    assert_eq!(results[0].title, "App 3");
    assert_eq!(results[0].score, 200);
    assert_eq!(results[1].title, "App 0");
    assert_eq!(results[1].score, 100);
    assert_eq!(results[1].subtitle, "Application");
}

#[test]
fn fuzzy_core_matches_in_order() {
    assert!(fuzzy_parts("", "Anything").is_none());
    assert!(fuzzy_parts("xyz", "Notepad").is_none());
    assert!(fuzzy_parts("ThisIsWayTooLong", "Short").is_none());
    let p = fuzzy_parts("notepad", "Notepad").unwrap();
    assert_eq!(p.first, 0);
    assert_eq!(p.name_len, 7);
    assert_eq!(p.query_len, 7);
    // 7 matches of 10, 6 consecutive bonuses of 15, a start bonus of 30
    assert_eq!(p.raw, 70 + 90 + 30);
    let p = fuzzy_parts("ps", "Power Shell").unwrap();
    // P at 0: 10 + 30; S after a space: 10 + 30 + 15; 9 unmatched bytes
    assert_eq!(p.raw, 40 + 55 - 18);
    let upper = fuzzy_parts("NP", "Notepad").unwrap();
    let lower = fuzzy_parts("np", "Notepad").unwrap();
    assert_eq!(upper.raw, lower.raw);
}

#[test]
fn names_that_lengthen_when_lowered_still_match() {
    // "İ" lower-cases to "i̇", one byte longer
    assert!(!fuzzy_overruns("i", "İstanbul"));
    let p = fuzzy_parts("i", "İstanbul").unwrap();
    assert_eq!(p.first, 0);
    assert_eq!(p.name_len, "İstanbul".len());
    // in "İa" the lowered "a" sits past the name's three bytes
    assert!(fuzzy_overruns("a", "İa"));
    assert!(!fuzzy_overruns("x", "İstanbul"));
}
