use element::hotkey::{
    after_register, arm_hook, install_outcome, has_pending_toggle, hook_active, hook_installed, install, mods_held,
    on_key_event, requeue_toggle, take_pending_toggle, uninstall, AfterRegister, HotkeyState,
    KeyEvent, KeysDown, WM_KEYDOWN, WM_KEYUP,
};

fn no_keys() -> KeysDown {
    KeysDown { alt: false, ctrl: false, shift: false, win: false }
}

#[test]
fn pending_toggle_is_taken_once() {
    let mut s = HotkeyState::new();
    assert!(!has_pending_toggle(&s));
    requeue_toggle(&mut s);
    assert!(has_pending_toggle(&s));
    assert!(take_pending_toggle(&mut s));
    assert!(!take_pending_toggle(&mut s));
}

#[test]
fn hook_install_and_uninstall() {
    let mut s = HotkeyState::new();
    assert!(!hook_active(&s));
    arm_hook(&mut s, 1, 0x20);
    assert_eq!((s.want_mods, s.want_vk), (1, 0x20));
    assert!(!hook_installed(&mut s, 0));
    assert!(!hook_active(&s));
    assert!(hook_installed(&mut s, 77));
    assert!(hook_active(&s));
    requeue_toggle(&mut s);
    assert_eq!(uninstall(&mut s), 77);
    assert!(!hook_active(&s));
    assert!(!has_pending_toggle(&s));
}

#[test]
fn alt_from_event_flags_counts_as_held() {
    assert!(mods_held(1, 0x20, no_keys()));
    assert!(!mods_held(1, 0, no_keys()));
    let ctrl = KeysDown { ctrl: true, ..no_keys() };
    assert!(mods_held(2, 0, ctrl));
    assert!(!mods_held(3, 0, ctrl));
}

#[test]
fn key_repeat_does_not_rearm() {
    let mut s = HotkeyState::new();
    arm_hook(&mut s, 1, 0x20);
    let down = KeyEvent { code: 0, wparam: WM_KEYDOWN, vk_code: 0x20, flags: 0x20 };
    assert!(on_key_event(&mut s, down, no_keys()));
    assert!(take_pending_toggle(&mut s));
    // held: a repeat is swallowed but does not arm again
    assert!(on_key_event(&mut s, down, no_keys()));
    assert!(!has_pending_toggle(&s));
    let up = KeyEvent { code: 0, wparam: WM_KEYUP, vk_code: 0x20, flags: 0x80 };
    // Alt taken as held on the release: swallowed
    assert!(on_key_event(&mut s, up, no_keys()));
    assert!(!s.combo_down);
    assert!(on_key_event(&mut s, down, no_keys()));
    assert!(has_pending_toggle(&s));
    let other = KeyEvent { code: 0, wparam: WM_KEYDOWN, vk_code: 0x41, flags: 0 };
    assert!(!on_key_event(&mut s, other, no_keys()));
}

#[test]
fn install_plan_lists_parsable_candidates() {
    let plan = install("Ctrl+Shift+F");
    assert_eq!(plan[0].index, 0);
    assert_eq!(plan[0].label, "Ctrl+Shift+F");
    assert_eq!(plan[1].label, "Alt+Space");
    assert_eq!(plan.len(), 6);
    let plan = install("Hyper+Q");
    assert_eq!(plan[0].index, 1);
    assert_eq!(plan[0].label, "Alt+Space");
    assert_eq!(after_register(0, true), AfterRegister::Done);
    assert_eq!(after_register(0, false), AfterRegister::TryHook);
    assert_eq!(after_register(2, false), AfterRegister::Next);
}

#[test]
fn install_settles_on_the_first_working_candidate() {
    let s = |v: &str| v.to_string();
    assert_eq!(install_outcome("Alt+Space", &vec![true], false), (s("Alt+Space"), false));
    // the preferred hotkey is taken by the hook when registering fails
    assert_eq!(install_outcome("Alt+Space", &vec![false], true), (s("Alt+Space"), true));
    // else the next candidate that registers
    assert_eq!(install_outcome("Alt+Space", &vec![false, false, true], false), (s("Alt+Shift+Space"), false));
    assert_eq!(install_outcome("Ctrl+Q", &vec![false, true], false), (s("Alt+Space"), false));
    // nothing works: the label stays the preferred one
    assert_eq!(install_outcome("Ctrl+Q", &vec![false; 6], false), (s("Ctrl+Q"), false));
    // an unparseable preference is skipped, and never hooked
    assert_eq!(install_outcome("Hyper+?", &vec![true, false, true], true), (s("Ctrl+Space"), false));
    assert_eq!(install_outcome("Hyper+?", &vec![], true), (s("Hyper+?"), false));
}
