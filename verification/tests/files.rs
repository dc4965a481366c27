use element::providers::files::{
    is_excluded_dir, is_hidden, is_version_dir, parse_prefix, parse_query, rows_for_roots, FilesProvider,
    SearchMode,
};

#[test]
fn prefix_parses_file_mode() {
    assert_eq!(
        parse_prefix("file notes"),
        Some((SearchMode::Any, "notes".to_string()))
    );
    assert_eq!(parse_prefix("file"), Some((SearchMode::Any, "".to_string())));
    assert_eq!(
        parse_prefix("files notes"),
        Some((SearchMode::Any, "notes".to_string()))
    );
}

#[test]
fn prefix_parses_folder_mode() {
    assert_eq!(
        parse_prefix("folder documents"),
        Some((SearchMode::FoldersOnly, "documents".to_string()))
    );
    assert_eq!(
        parse_prefix("folders"),
        Some((SearchMode::FoldersOnly, "".to_string()))
    );
}

#[test]
fn prefix_case_insensitive_and_trimmed() {
    assert_eq!(
        parse_prefix("  FILE Report "),
        Some((SearchMode::Any, "report".to_string()))
    );
}

#[test]
fn non_prefix_queries_do_not_trigger() {
    assert_eq!(parse_prefix("firefox"), None);
    assert_eq!(parse_prefix("f"), None);
    assert_eq!(parse_prefix("filex"), None);
    assert_eq!(parse_prefix(""), None);
}

#[test]
fn bare_queries_search_files_too() {
    let q = parse_query("firefox").unwrap();
    assert!(q.bare);
    assert_eq!(q.mode, SearchMode::Any);
    assert_eq!(q.term, "firefox");

    let q = parse_query(".png").unwrap();
    assert!(q.bare);
    assert_eq!(q.term, ".png");

    let q = parse_query("pvt").unwrap();
    assert!(q.bare);
    assert_eq!(q.term, "pvt");
}

#[test]
fn prefixed_queries_are_not_bare() {
    let q = parse_query("file report").unwrap();
    assert!(!q.bare);
    assert_eq!(q.mode, SearchMode::Any);
    assert_eq!(q.term, "report");

    let q = parse_query("folder docs").unwrap();
    assert!(!q.bare);
    assert_eq!(q.mode, SearchMode::FoldersOnly);
    assert_eq!(q.term, "docs");
}

#[test]
fn bare_queries_skip_short_and_other_domains() {
    assert!(parse_query("f").is_none());
    assert!(parse_query("").is_none());
    assert!(parse_query(":smile").is_none());
    assert!(parse_query("emoji").is_none());
    assert!(parse_query("cbhist").is_none());
    assert!(parse_query("clip").is_none());
    assert!(parse_query("2+2").is_none());
    // Spelled-out math still searches files.
    assert!(parse_query("two plus two").is_some());
}

#[test]
fn bare_query_counts_bytes_not_characters() {
    // One two-byte character is long enough for a bare file search.
    let q = parse_query("é").unwrap();
    assert!(q.bare);
    assert_eq!(q.term, "é");
}

#[test]
fn known_junk_dirs_are_excluded() {
    for name in ["node_modules", "target", ".git", "AppData", "$RECYCLE.Bin"] {
        assert!(is_excluded_dir(name), "{name} should be excluded");
        assert!(
            is_excluded_dir(&name.to_uppercase()),
            "{name} case-insensitive"
        );
    }
}

#[test]
fn user_dirs_are_not_excluded() {
    for name in ["Documents", "Downloads", "Projects", "Music"] {
        assert!(!is_excluded_dir(name), "{name} should be indexed");
    }
}

#[test]
fn hidden_entries_are_skipped() {
    assert!(is_hidden(".git"));
    assert!(is_hidden(".DS_Store"));
    assert!(!is_hidden("report.txt"));
}

#[test]
fn version_dirs_are_skipped() {
    assert!(is_version_dir("0.1.0"));
    assert!(is_version_dir("1.0.32"));
    assert!(is_version_dir("v2.0"));
    assert!(!is_version_dir("Documents"));
    assert!(!is_version_dir("100PINT"));
    assert!(!is_version_dir("notes"));
    assert!(!is_version_dir("3d files"));
}

#[test]
fn version_dir_needs_a_dot_and_a_digit() {
    assert!(!is_version_dir("v"));
    assert!(!is_version_dir("..."));
    assert!(!is_version_dir("12"));
    assert!(is_version_dir("Vv1.0") == false);
    assert!(is_version_dir("vV1_0.2"));
}

#[test]
fn android_dump_dirs_are_skipped() {
    assert!(is_excluded_dir("100PINT"));
    assert!(is_excluded_dir("100MEDIA"));
    assert!(is_excluded_dir("100pint"));
    assert!(!is_excluded_dir("100th"));
}

#[test]
fn substring_exclusions_are_case_insensitive() {
    assert!(is_excluded_dir("DCIM"));
    assert!(is_excluded_dir("Site-Packages"));
    assert!(is_excluded_dir("Backup"));
    assert!(is_excluded_dir("Media"));
    assert!(!is_excluded_dir("My Documents"));
}

#[test]
fn empty_query_recommends_roots() {
    let mut provider = FilesProvider::new(Vec::new());
    provider.roots = vec!["C:/Users/me/Desktop".to_string(), "C:/Users/me/Documents".to_string()];
    let results = provider.early_rows("file", false).unwrap();
    assert_eq!(results.len(), 2);
    assert_eq!(results[0].title, "Desktop");
    assert_eq!(results[0].kind, "folder");
    assert_eq!(results[0].action, "C:/Users/me/Desktop");
    assert_eq!(results[0].score, 210);
    assert_eq!(results[1].title, "Documents");
    assert!(results.iter().all(|r| r.kind == "folder"));
}

#[test]
fn first_scan_shows_indexing_hint_instead_of_empty_list() {
    let provider = FilesProvider::new(Vec::new());
    let results = provider.early_rows("file report", true).unwrap();
    assert_eq!(results.len(), 1);
    assert_eq!(results[0].kind, "hint");
    assert!(results[0].provider_id == "files");
    assert_eq!(results[0].title, "Indexing your files…");
    assert_eq!(results[0].score, 0);
}

#[test]
fn ranked_queries_and_non_queries() {
    let provider = FilesProvider::new(Vec::new());
    // a term with the index ready: the index is to be ranked
    assert!(provider.early_rows("file report", false).is_none());
    // not a file search at all
    assert_eq!(provider.early_rows("2+2", false).unwrap().len(), 0);
}

#[test]
fn roots_with_empty_titles_are_skipped() {
    let roots = vec!["/data/Music".to_string(), "/".to_string(), "/data/Videos".to_string()];
    let titles = vec!["Music".to_string(), String::new(), "Videos".to_string()];
    let rows = rows_for_roots(&roots, &titles);
    assert_eq!(rows.len(), 2);
    assert_eq!(rows[0].title, "Music");
    assert_eq!(rows[0].subtitle, "/data/Music");
    assert_eq!(rows[1].action, "/data/Videos");
    assert_eq!(rows[1].provider_id, "files");
}

#[test]
fn root_without_a_final_name_takes_its_parents() {
    let mut provider = FilesProvider::new(Vec::new());
    provider.roots = vec!["/data/music/..".to_string(), "/".to_string()];
    let results = provider.recommendations();
    assert_eq!(results.len(), 2);
    assert_eq!(results[0].title, "music");
    assert_eq!(results[0].action, "/data/music/..");
    // no name and no parent: the whole path
    assert_eq!(results[1].title, "/");
}
