use element::actions::{FileAction, Mode};
use element::ui::{Action, Key, Launcher, Mods, SettingsDraft, Shown, CLIPBOARD_HINT, FILES_HINT};

fn row(provider: &str, kind: &str, title: &str) -> Shown {
    Shown { provider_id: provider.to_string(), kind: kind.to_string(), title: title.to_string() }
}

fn rows() -> Vec<Shown> {
    vec![row("apps", "app", "Notepad"), row("files", "file", "notes.txt"), row("clipboard", "clipboard", "copied")]
}

const NONE: Mods = Mods { ctrl: false, alt: false, shift: false };
const CTRL: Mods = Mods { ctrl: true, alt: false, shift: false };
const ALT: Mods = Mods { ctrl: false, alt: true, shift: false };

#[test]
fn results_select_the_first_row() {
    let mut w = Launcher::new();
    assert_eq!(w.selected, -1);
    assert!(matches!(w.on_input("no".to_string()), Action::Search(q) if q == "no"));
    assert!(matches!(w.on_results(&rows()), Action::ScrollTo(0)));
    assert_eq!(w.selected, 0);
    assert_eq!(w.hint, None);
    assert!(matches!(w.on_results(&Vec::new()), Action::ScrollTo(-1)));
    assert_eq!(w.selected, -1);
}

#[test]
fn moves_wrap_and_the_hint_follows() {
    let r = rows();
    let mut w = Launcher::new();
    w.on_results(&r);
    assert!(matches!(w.on_key(&Key::ArrowDown, NONE, &r, false), Action::ScrollTo(1)));
    assert_eq!(w.hint.as_deref(), Some(FILES_HINT));
    w.on_key(&Key::Character("n".to_string()), CTRL, &r, false);
    assert_eq!(w.selected, 2);
    assert_eq!(w.hint.as_deref(), Some(CLIPBOARD_HINT));
    w.on_key(&Key::ArrowDown, NONE, &r, false);
    assert_eq!(w.selected, 0);
    w.on_key(&Key::ArrowUp, NONE, &r, false);
    assert_eq!(w.selected, 2);
    w.on_key(&Key::Character("p".to_string()), CTRL, &r, false);
    assert_eq!(w.selected, 1);
}

#[test]
fn down_then_up_returns_to_the_same_row() {
    let r = rows();
    for start in 0..3 {
        let mut w = Launcher::new();
        w.on_results(&r);
        w.selected = start;
        w.on_key(&Key::ArrowDown, NONE, &r, false);
        w.on_key(&Key::ArrowUp, NONE, &r, false);
        assert_eq!(w.selected, start);
    }
}

#[test]
fn ctrl_digits_pick_rows() {
    let r = rows();
    let mut w = Launcher::new();
    w.on_results(&r);
    assert!(matches!(w.on_key(&Key::Character("3".to_string()), CTRL, &r, false), Action::ScrollTo(2)));
    assert_eq!(w.selected, 2);
    // past the rows, zero, and with Shift: nothing
    assert!(matches!(w.on_key(&Key::Character("4".to_string()), CTRL, &r, false), Action::Nothing));
    assert!(matches!(w.on_key(&Key::Character("0".to_string()), CTRL, &r, false), Action::Nothing));
    let shift = Mods { ctrl: true, alt: false, shift: true };
    assert!(matches!(w.on_key(&Key::Character("1".to_string()), shift, &r, false), Action::Nothing));
    assert_eq!(w.selected, 2);
}

#[test]
fn file_keys_apply_to_a_selected_file() {
    let r = rows();
    let mut w = Launcher::new();
    w.on_results(&r);
    // the first row is an app: nothing to do
    assert!(matches!(w.on_key(&Key::Character("c".to_string()), ALT, &r, false), Action::Nothing));
    w.on_key(&Key::ArrowDown, NONE, &r, false);
    assert!(matches!(
        w.on_key(&Key::Character("c".to_string()), ALT, &r, false),
        Action::RunFileAction(1, FileAction::CopyPath, false)
    ));
    assert!(matches!(
        w.on_key(&Key::Character("f".to_string()), ALT, &r, false),
        Action::RunFileAction(1, FileAction::CopyFile, false)
    ));
    assert!(matches!(w.on_key(&Key::Enter, ALT, &r, false), Action::RunFileAction(1, FileAction::Reveal, false)));
    assert!(matches!(w.on_key(&Key::Enter, NONE, &r, false), Action::Nothing));
    w.on_file_action_done(FileAction::CopyFile, &Ok(()), false);
    assert_eq!(w.status.as_deref(), Some("File copied to clipboard"));
    assert_eq!(w.hint.as_deref(), Some(FILES_HINT));
    w.on_file_action_done(FileAction::Reveal, &Err("denied".to_string()), true);
    assert_eq!(w.status.as_deref(), Some("Could not: denied"));
    assert_eq!(w.hint, None);
}

#[test]
fn escape_hides_and_clears() {
    let r = rows();
    let mut w = Launcher::new();
    w.on_input("note".to_string());
    w.on_results(&r);
    assert!(matches!(w.on_key(&Key::Escape, NONE, &r, false), Action::Hide));
    assert_eq!(w.input, "");
    assert_eq!(w.status, None);
    assert_eq!(w.hint, None);
}

#[test]
fn settings_row_opens_the_panel_and_keys_leave_it() {
    let r = vec![row("settings", "settings", "Settings")];
    let mut w = Launcher::new();
    w.on_results(&r);
    assert!(matches!(w.on_submit(&r), Action::OpenSettings));
    assert_eq!(w.mode, Mode::Settings);
    // Backspace leaves only when the URL field is empty
    assert!(matches!(w.on_key(&Key::Backspace, NONE, &r, false), Action::Nothing));
    assert_eq!(w.mode, Mode::Settings);
    assert!(matches!(w.on_key(&Key::Backspace, NONE, &r, true), Action::LeaveSettings));
    assert_eq!(w.mode, Mode::Search);
    w.activate(0, &r);
    assert!(matches!(w.on_key(&Key::Escape, NONE, &r, false), Action::LeaveSettings));
    assert_eq!(w.input, "");
}

#[test]
fn activation_outcomes() {
    let r = rows();
    let mut w = Launcher::new();
    w.on_results(&r);
    assert!(matches!(w.on_submit(&r), Action::Activate(0)));
    assert!(matches!(w.activate(7, &r), Action::Nothing));
    assert!(matches!(w.on_activated(&r[0], &Ok(())), Action::Hide));
    assert!(matches!(w.on_activated(&r[2], &Ok(())), Action::Nothing));
    assert_eq!(w.status.as_deref(), Some("Copied to clipboard"));
    w.on_activated(&r[0], &Err("gone".to_string()));
    assert_eq!(w.status.as_deref(), Some("Could not open Notepad"));
}

#[test]
fn right_click_pins_or_copies_paths() {
    let r = rows();
    let mut w = Launcher::new();
    w.on_input("cli".to_string());
    assert!(matches!(w.on_right_click(2, &r), Action::Pin(2)));
    assert!(matches!(w.on_right_click(1, &r), Action::RunFileAction(1, FileAction::CopyPath, true)));
    assert!(matches!(w.on_right_click(0, &r), Action::Nothing));
    assert!(matches!(w.on_right_click(9, &r), Action::Nothing));
    assert!(matches!(w.on_pinned(true), Action::Search(q) if q == "cli"));
    assert_eq!(w.status.as_deref(), Some("Pinned — stays in history"));
    w.on_pinned(false);
    assert_eq!(w.status.as_deref(), Some("Unpinned"));
}

#[test]
fn hotkey_starts_afresh() {
    let mut w = Launcher::new();
    w.on_input("old".to_string());
    w.on_pinned(true);
    assert!(matches!(w.on_hotkey(), Action::Search(q) if q.is_empty()));
    assert_eq!(w.input, "");
    assert_eq!(w.status, None);
}

fn draft() -> SettingsDraft {
    SettingsDraft {
        search_url: "https://duckduckgo.com/search?q=%s".to_string(),
        accent: "#569cd4".to_string(),
        autostart: true,
        file_index_depth: 14,
        file_index_entries: 50_000,
    }
}

#[test]
fn settings_draft_changes_and_reset() {
    let mut d = draft();
    let mut accent = (1u8, 2u8, 3u8);
    d.on_search_url("https://example.com/?q=%s".to_string());
    assert_eq!(d.search_url, "https://example.com/?q=%s");
    d.on_accent("#e8540c".to_string(), &mut accent);
    assert_eq!((d.accent.as_str(), accent), ("#e8540c", (0xe8, 0x54, 0x0c)));
    d.on_accent("blue".to_string(), &mut accent);
    assert_eq!((d.accent.as_str(), accent), ("blue", (0xe8, 0x54, 0x0c)));
    assert!(matches!(d.on_autostart(false), Action::SetAutostart(false)));
    assert!(matches!(d.on_file_depth(20), Action::ApplyFileLimits(20, 50_000)));
    assert!(matches!(d.on_file_entries(10_000), Action::ApplyFileLimits(20, 10_000)));
    let actions = d.reset(draft(), &mut accent);
    assert_eq!(actions.len(), 2);
    assert!(matches!(actions[0], Action::SetAutostart(true)));
    assert!(matches!(actions[1], Action::ApplyFileLimits(14, 50_000)));
    assert_eq!(accent, (0x56, 0x9c, 0xd4));
    assert!(d.autostart);
    assert_eq!(d.search_url, draft().search_url);
}

#[test]
fn tick_searches_again_when_the_engine_changed() {
    let mut w = Launcher::new();
    w.on_input("note".to_string());
    assert!(matches!(w.on_tick(3, 3), Action::Nothing));
    assert!(matches!(w.on_tick(4, 3), Action::Search(q) if q == "note"));
}
