use element::providers::apps::fuzzy_parts;

/// The documented score: raw points, plus 50 for a match at the start
/// (else up to 30, less the later the first match), per query byte.
fn fuzzy_score(query: &str, name: &str) -> Option<f64> {
    fuzzy_parts(query, name).map(|p| {
        let position = if p.first == 0 {
            50.0
        } else {
            (1.0 - p.first as f64 / p.name_len as f64) * 30.0
        };
        (p.raw as f64 + position) / p.query_len as f64
    })
}

#[test]
fn fuzzy_empty_query_returns_none() {
    assert!(fuzzy_score("", "Anything").is_none());
}

#[test]
fn fuzzy_exact_match() {
    let score = fuzzy_score("notepad", "Notepad").unwrap();
    assert!(score > 0.0);
}

#[test]
fn fuzzy_subsequence_match() {
    let score = fuzzy_score("npd", "Notepad").unwrap();
    assert!(score > 0.0);
}

#[test]
fn fuzzy_no_match() {
    assert!(fuzzy_score("xyz", "Notepad").is_none());
}

#[test]
fn fuzzy_word_boundary_bonus() {
    let with_bonus = fuzzy_score("ps", "Power Shell").unwrap();
    let without = fuzzy_score("ps", "Powershell").unwrap_or(0.0);
    assert!(with_bonus > without, "expected word boundary bonus: {} <= {}", with_bonus, without);
}

#[test]
fn fuzzy_camelcase_bonus() {
    let with_bonus = fuzzy_score("vs", "VisualStudio").unwrap_or(0.0);
    let without = fuzzy_score("vs", "visualstudio").unwrap_or(0.0);
    assert!(with_bonus >= without, "expected camelCase bonus: {} < {}", with_bonus, without);
}

#[test]
fn fuzzy_consecutive_bonus() {
    let consecutive = fuzzy_score("wo", "Word").unwrap();
    let spread = fuzzy_score("wd", "Word").unwrap_or(0.0);
    assert!(consecutive > spread, "expected consecutive bonus: {} <= {}", consecutive, spread);
}

#[test]
fn fuzzy_early_match_bonus() {
    let early = fuzzy_score("n", "Notepad").unwrap();
    let late = fuzzy_score("d", "Notepad").unwrap_or(0.0);
    assert!(early > late, "expected early match bonus: {} <= {}", early, late);
}

#[test]
fn fuzzy_query_longer_than_name() {
    assert!(fuzzy_score("ThisIsWayTooLong", "Short").is_none());
}

#[test]
fn fuzzy_case_insensitive() {
    let upper = fuzzy_score("NP", "Notepad").unwrap();
    let lower = fuzzy_score("np", "Notepad").unwrap();
    assert!((upper - lower).abs() < f64::EPSILON, "should be case-insensitive: {} != {}", upper, lower);
}

#[test]
fn a_match_is_an_in_order_subsequence() {
    assert!(fuzzy_parts("npd", "Notepad").is_some());
    assert!(fuzzy_parts("dpn", "Notepad").is_none());
    assert!(fuzzy_parts("oo", "Notepad").is_none());
    assert!(fuzzy_parts("NOTEPAD", "notepad").is_some());
}
