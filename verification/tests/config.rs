use element::config::{
    hotkey_fallback_candidates, parse_hotkey, MOD_ALT, MOD_CONTROL, MOD_SHIFT, MOD_WIN,
};

#[test]
fn parse_hotkey_alt_space() {
    let (mods, vk) = parse_hotkey("Alt+Space").unwrap();
    assert_eq!(mods, MOD_ALT);
    assert_eq!(vk, 0x20);
}

#[test]
fn parse_hotkey_ctrl_shift_f() {
    let (mods, vk) = parse_hotkey("Ctrl+Shift+F").unwrap();
    assert_eq!(mods, MOD_CONTROL | MOD_SHIFT);
    assert_eq!(vk, b'F' as u32);
}

#[test]
fn hotkey_fallback_keeps_preferred_first() {
    let list = hotkey_fallback_candidates("Ctrl+Space");
    assert_eq!(list[0], "Ctrl+Space");
    assert!(list.iter().any(|s| s == "Alt+Space"));
}

#[test]
fn parse_hotkey_rejects_malformed_strings() {
    assert_eq!(parse_hotkey(""), None);
    assert_eq!(parse_hotkey("Alt+"), None);
    assert_eq!(parse_hotkey("Alt"), None);
    assert_eq!(parse_hotkey("Alt+Banana"), None);
    assert_eq!(parse_hotkey("Alt+é"), None);
    assert_eq!(parse_hotkey("Alt+?"), None);
}

#[test]
fn parse_hotkey_trims_and_folds_case() {
    assert_eq!(parse_hotkey(" win + super + 7 "), Some((MOD_WIN, b'7' as u32)));
    assert_eq!(parse_hotkey("CONTROL+menu+q"), Some((MOD_CONTROL | MOD_ALT, b'Q' as u32)));
    // The last key wins.
    assert_eq!(parse_hotkey("A+Space"), Some((0, 0x20)));
}

#[test]
fn fallback_candidates_skip_duplicates_ignoring_case() {
    let list = hotkey_fallback_candidates("alt+space");
    assert_eq!(
        list,
        vec![
            "alt+space",
            "Ctrl+Space",
            "Alt+Shift+Space",
            "Ctrl+Shift+Space",
            "Ctrl+Alt+Space"
        ]
    );
    assert_eq!(hotkey_fallback_candidates("F1").len(), 6);
}
