use element::providers::calculator::{calc_result, CalculatorProvider};
use element::providers::color::{parse_hex, swatch, to_hex_code, to_rgb, ColorProvider};
use element::providers::help::HelpProvider;
use element::providers::settings::SettingsProvider;

#[test]
fn matches_help_word_only() {
    let provider = HelpProvider;
    assert!(provider.should_run("help"));
    assert!(provider.should_run("HELP"));
    assert!(provider.should_run("help panel"));
    assert!(!provider.should_run("helper"));
    assert!(!provider.should_run(""));
}

#[test]
fn search_returns_help_result() {
    let provider = HelpProvider;
    let results = provider.search("help");
    assert_eq!(results.len(), 1);
    assert_eq!(results[0].title, "Open Help");
    assert_eq!(results[0].kind, "help");
    assert_eq!(results[0].score, 1000);
}

#[test]
fn settings_matches_its_word_only() {
    let provider = SettingsProvider;
    assert!(provider.should_run("  Settings "));
    assert!(provider.should_run("settings width"));
    assert!(!provider.should_run("settingsx"));
    let results = provider.search("settings");
    assert_eq!(results.len(), 1);
    assert_eq!(results[0].kind, "settings");
    assert_eq!(results[0].action, "open");
}

#[test]
fn detects_math_expressions() {
    assert!(CalculatorProvider.should_run("1+1"));
    assert!(CalculatorProvider.should_run("2 * 3"));
    assert!(CalculatorProvider.should_run("(5+5)/2"));
    assert!(!CalculatorProvider.should_run("hello world"));
    assert!(!CalculatorProvider.should_run(""));
    assert!(!CalculatorProvider.should_run("notamath"));
}

#[test]
fn calculator_evaluates_with_x_and_division_sign() {
    let results = CalculatorProvider.search("3x4");
    assert_eq!(results.len(), 1);
    assert_eq!(results[0].title, "= 12");
    assert_eq!(results[0].action, "12");
    assert_eq!(results[0].subtitle, "Calc: 3x4");
    assert_eq!(results[0].score, 1000);
    let results = CalculatorProvider.search("9÷3");
    assert_eq!(results[0].action, "3");
    assert!(CalculatorProvider.search("1+").is_empty());
}

#[test]
fn calc_result_formats_title_and_subtitle() {
    let r = calc_result("2+2", "4".to_string());
    assert_eq!(r.title, "= 4");
    assert_eq!(r.subtitle, "Calc: 2+2");
    assert_eq!(r.kind, "calc");
    assert_eq!(r.provider_id, "calculator");
}

#[test]
fn parses_hex_forms() {
    assert_eq!(parse_hex("#f00"), Some((255, 0, 0)));
    assert_eq!(parse_hex("#ff0000"), Some((255, 0, 0)));
    assert_eq!(parse_hex("#00ff00"), Some((0, 255, 0)));
    assert_eq!(parse_hex("#0000ff80"), Some((0, 0, 255)));
    assert_eq!(parse_hex("#abc"), Some((170, 187, 204)));
    assert_eq!(parse_hex("#nothex"), None);
    assert_eq!(parse_hex("#ff00"), None);
    assert_eq!(parse_hex("ff0000"), None);
}

#[test]
fn should_run_only_on_hash_colors() {
    let provider = ColorProvider;
    assert!(provider.should_run("#fff"));
    assert!(provider.should_run("#FF0000"));
    assert!(!provider.should_run("ff0000"));
    assert!(!provider.should_run("#zzz"));
}

#[test]
fn search_returns_hex_and_rgb_variants_with_swatch() {
    let provider = ColorProvider;
    let results = provider.search("#ff0000");
    assert_eq!(results.len(), 2);
    assert_eq!(results[0].title, "#FF0000");
    assert_eq!(results[0].action, "#FF0000");
    assert_eq!(results[1].title, "rgb(255, 0, 0)");
    assert!(results[0].icon_rgba.is_some());
    assert_eq!(results[0].score, 950);
    assert!(provider.search("#12").is_empty());
}

#[test]
fn color_strings_and_swatch() {
    assert_eq!(to_hex_code(10, 171, 255), "#0AABFF");
    assert_eq!(to_rgb(0, 128, 7), "rgb(0, 128, 7)");
    let (px, w, h) = swatch(1, 2, 3);
    assert_eq!((w, h), (32, 32));
    assert_eq!(px.len(), 32 * 32 * 4);
    assert_eq!(&px[0..8], &[1, 2, 3, 255, 1, 2, 3, 255]);
}

#[test]
fn calculator_handles_long_and_deep_queries() {
    // at the bound: deeply nested parentheses still evaluate
    let deep = format!("{}1{}", "(".repeat(499), ")".repeat(499));
    assert_eq!(deep.chars().count(), 999);
    let r = CalculatorProvider.search(&deep);
    assert_eq!(r.len(), 1);
    assert_eq!(r[0].action, "1");
    let chain = format!("1{}", "+1".repeat(499));
    assert_eq!(CalculatorProvider.search(&chain)[0].action, "500");
    // past it: no row
    let long = format!("1{}", "+1".repeat(50_000));
    assert!(CalculatorProvider.search(&long).is_empty());
}

#[test]
fn calculator_skips_builtins_that_can_panic() {
    assert!(CalculatorProvider.search("str::substring(\"é\", 0, 1)").is_empty());
    assert!(CalculatorProvider.search("shl(1, 64)").is_empty());
    assert!(CalculatorProvider.search("shr(1, 64)").is_empty());
    assert!(CalculatorProvider.search("math::abs(-9223372036854775807 - 1)").is_empty());
    assert_eq!(CalculatorProvider.search("min(3, 2) + 1")[0].action, "3");
}
