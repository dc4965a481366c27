//! Global hotkey state and decisions.
//!
//! The state that the keyboard hook and the message loop share lives in a
//! `HotkeyState`. The hook's decision on each key event is `on_key_event`:
//! arm a pending toggle on the first key-down of the combo, swallow the
//! combo's keys, and let everything else through. Installing tries each
//! fallback candidate in turn (`install` lists them with their parses; the
//! caller registers them and asks `after_register` what to do next).
use vstd::prelude::*;
use crate::config;

verus! {

/// Flag in a low-level keyboard event: the key went up.
pub const LLKHF_UP: u32 = 0x80;

/// Flag in a low-level keyboard event: Alt was down.
pub const LLKHF_ALTDOWN: u32 = 0x20;

pub const WM_KEYDOWN: usize = 0x0100;

pub const WM_KEYUP: usize = 0x0101;

pub const WM_SYSKEYDOWN: usize = 0x0104;

pub const WM_SYSKEYUP: usize = 0x0105;

/// The shared hotkey state.
#[derive(Clone, Copy, Debug, PartialEq, Eq, Structural)]
pub struct HotkeyState {
    /// Modifiers the hook waits for (`config::MOD_*` bits).
    pub want_mods: u32,
    /// Virtual key the hook waits for.
    pub want_vk: u32,
    /// Handle of the installed keyboard hook; 0 when none.
    pub hook: isize,
    /// A hotkey press waits to be handled.
    pub toggle_pending: bool,
    /// The combo is physically held down (key repeats must not re-arm).
    pub combo_down: bool,
}

/// Which modifier keys the keyboard reports as held.
#[derive(Clone, Copy, Debug, PartialEq, Eq, Structural)]
pub struct KeysDown {
    pub alt: bool,
    pub ctrl: bool,
    pub shift: bool,
    pub win: bool,
}

impl HotkeyState {
    /// Nothing installed, nothing pending.
    pub fn new() -> (s: Self)
        ensures
            s.hook == 0,
            !s.toggle_pending,
            !s.combo_down,
            s.want_mods == 0,
            s.want_vk == 0,
    {
        HotkeyState { want_mods: 0, want_vk: 0, hook: 0, toggle_pending: false, combo_down: false }
    }
}

/// A keyboard hook is installed (it needs a responsive message pump).
pub fn hook_active(state: &HotkeyState) -> (b: bool)
    ensures
        b == (state.hook != 0),
{
    state.hook != 0
}

/// The state with no press pending.
pub open spec fn taken(s: HotkeyState) -> HotkeyState {
    HotkeyState { toggle_pending: false, ..s }
}

/// The state with a press pending.
pub open spec fn requeued(s: HotkeyState) -> HotkeyState {
    HotkeyState { toggle_pending: true, ..s }
}

/// Consume a pending hotkey press: `true` when one was pending; none is
/// pending afterwards.
pub fn take_pending_toggle(state: &mut HotkeyState) -> (b: bool)
    ensures
        b == old(state).toggle_pending,
        *final(state) == taken(*old(state)),
{
    let b = state.toggle_pending;
    state.toggle_pending = false;
    b
}

/// Whether a hotkey press is pending, without consuming it.
pub fn has_pending_toggle(state: &HotkeyState) -> (b: bool)
    ensures
        b == state.toggle_pending,
{
    state.toggle_pending
}

/// Queue a hotkey press again (one that came before the window existed).
pub fn requeue_toggle(state: &mut HotkeyState)
    ensures
        *final(state) == requeued(*old(state)),
{
    state.toggle_pending = true;
}

/// Forget the hook and any pending press or held combo. Returns the hook
/// handle that the caller must remove (0 when there was none).
pub fn uninstall(state: &mut HotkeyState) -> (old_hook: isize)
    ensures
        old_hook == old(state).hook,
        *final(state) == (HotkeyState {
            hook: 0,
            toggle_pending: false,
            combo_down: false,
            ..*old(state)
        }),
{
    let h = state.hook;
    state.hook = 0;
    state.toggle_pending = false;
    state.combo_down = false;
    h
}

/// Before installing a keyboard hook: set the combo it waits for and clear
/// any pending press.
pub fn arm_hook(state: &mut HotkeyState, mods: u32, vk: u32)
    ensures
        *final(state) == (HotkeyState {
            want_mods: mods,
            want_vk: vk,
            toggle_pending: false,
            ..*old(state)
        }),
{
    state.want_mods = mods;
    state.want_vk = vk;
    state.toggle_pending = false;
}

/// After trying to install a keyboard hook: a non-zero handle means it is
/// installed, and is recorded; `true` then.
pub fn hook_installed(state: &mut HotkeyState, handle: isize) -> (ok: bool)
    ensures
        ok == (handle != 0),
        ok ==> *final(state) == (HotkeyState { hook: handle, ..*old(state) }),
        !ok ==> *final(state) == *old(state),
{
    if handle == 0 {
        false
    } else {
        state.hook = handle;
        true
    }
}

/// The `config::MOD_*` bits of the held modifiers.
pub open spec fn held_mask(alt: bool, keys: KeysDown) -> u32 {
    (if alt {
        config::MOD_ALT
    } else {
        0
    }) | (if keys.ctrl {
        config::MOD_CONTROL
    } else {
        0
    }) | (if keys.shift {
        config::MOD_SHIFT
    } else {
        0
    }) | (if keys.win {
        config::MOD_WIN
    } else {
        0
    })
}

/// Every modifier in `want_mods` is held; Alt counts as held when the
/// event's flags say so or the keyboard does.
pub open spec fn spec_mods_held(want_mods: u32, kb_flags: u32, keys: KeysDown) -> bool {
    let alt = (kb_flags & LLKHF_ALTDOWN) != 0 || keys.alt;
    (held_mask(alt, keys) & want_mods) == want_mods
}

/// Whether every wanted modifier is held.
pub fn mods_held(want_mods: u32, kb_flags: u32, keys: KeysDown) -> (b: bool)
    ensures
        b == spec_mods_held(want_mods, kb_flags, keys),
{
    let alt = (kb_flags & LLKHF_ALTDOWN) != 0 || keys.alt;
    let held: u32 = (if alt {
        config::MOD_ALT
    } else {
        0
    }) | (if keys.ctrl {
        config::MOD_CONTROL
    } else {
        0
    }) | (if keys.shift {
        config::MOD_SHIFT
    } else {
        0
    }) | (if keys.win {
        config::MOD_WIN
    } else {
        0
    });
    (held & want_mods) == want_mods
}

/// A key event as the hook sees it.
#[derive(Clone, Copy, Debug, PartialEq, Eq, Structural)]
pub struct KeyEvent {
    /// The hook code (events with a negative code are not looked at).
    pub code: i32,
    /// The window message (`WM_KEYDOWN` and so on).
    pub wparam: usize,
    pub vk_code: u32,
    pub flags: u32,
}

/// The event is a key release.
pub open spec fn is_up(ev: KeyEvent) -> bool {
    (ev.flags & LLKHF_UP) != 0 || ev.wparam == WM_KEYUP || ev.wparam == WM_SYSKEYUP
}

/// The event is a key press (or a repeat).
pub open spec fn is_down(ev: KeyEvent) -> bool {
    !is_up(ev) && (ev.wparam == WM_KEYDOWN || ev.wparam == WM_SYSKEYDOWN)
}

/// The hook's decision: the next state, and whether the event is swallowed.
/// A press of the combo is swallowed, and arms a pending toggle unless the
/// combo was already held; a release of the combo's key clears the held
/// combo and is swallowed when the modifiers (Alt taken as held) are still
/// down or a toggle is pending. Other events pass.
pub open spec fn key_event_next(s: HotkeyState, ev: KeyEvent, keys: KeysDown) -> (HotkeyState, bool) {
    if ev.code >= 0 && ev.vk_code == s.want_vk {
        if is_down(ev) && spec_mods_held(s.want_mods, ev.flags, keys) {
            (
                HotkeyState {
                    toggle_pending: s.toggle_pending || !s.combo_down,
                    combo_down: true,
                    ..s
                },
                true,
            )
        } else if is_up(ev) {
            (
                HotkeyState { combo_down: false, ..s },
                spec_mods_held(s.want_mods, ev.flags | LLKHF_ALTDOWN, keys) || s.toggle_pending,
            )
        } else {
            (s, false)
        }
    } else {
        (s, false)
    }
}

/// Handle one key event in the hook: update the state and say whether the
/// event is swallowed (`true`) or passed on.
pub fn on_key_event(state: &mut HotkeyState, ev: KeyEvent, keys: KeysDown) -> (swallow: bool)
    ensures
        (*final(state), swallow) == key_event_next(*old(state), ev, keys),
{
    if ev.code >= 0 && ev.vk_code == state.want_vk {
        let up = (ev.flags & LLKHF_UP) != 0 || ev.wparam == WM_KEYUP || ev.wparam == WM_SYSKEYUP;
        let down = !up && (ev.wparam == WM_KEYDOWN || ev.wparam == WM_SYSKEYDOWN);
        if down && mods_held(state.want_mods, ev.flags, keys) {
            if !state.combo_down {
                state.toggle_pending = true;
            }
            state.combo_down = true;
            return true;
        }
        if up {
            state.combo_down = false;
            return mods_held(state.want_mods, ev.flags | LLKHF_ALTDOWN, keys) || state.toggle_pending;
        }
    }
    false
}

/// Holding the combo down does not arm another toggle: a key-down while the
/// combo is held leaves the pending flag as it was.
pub proof fn lemma_repeat_does_not_rearm(s: HotkeyState, ev: KeyEvent, keys: KeysDown)
    requires
        s.combo_down,
    ensures
        key_event_next(s, ev, keys).0.toggle_pending == s.toggle_pending,
{
}

/// A press is handled once: after a take, taking again finds nothing; a
/// requeued press is found by the next take; neither touches the rest of
/// the state.
pub proof fn lemma_take_consumes(s: HotkeyState)
    ensures
        !taken(s).toggle_pending,
        taken(taken(s)) == taken(s),
        requeued(s).toggle_pending,
        taken(requeued(s)) == taken(s),
{
}

/// One entry of the install plan: the candidate's position among all
/// candidates, its text, and its parse.
pub struct InstallCandidate {
    pub index: usize,
    pub label: String,
    pub mods: u32,
    pub vk: u32,
}

/// What to do after registering a candidate.
#[derive(Clone, Copy, Debug, PartialEq, Eq, Structural)]
pub enum AfterRegister {
    /// Registered: this candidate is the active hotkey.
    Done,
    /// Registration failed on the preferred hotkey: take it with a
    /// keyboard hook instead.
    TryHook,
    /// Go on to the next candidate.
    Next,
}

/// The candidates to try, in order: those of
/// `config::hotkey_fallback_candidates(preferred)` that parse, each with its
/// position and parse. When none of them can be registered (or hooked), the
/// active label stays `preferred`.
pub fn install(preferred: &str) -> (plan: Vec<InstallCandidate>)
    ensures
        forall|k: int|
            0 <= k < plan@.len() ==> {
                let c = #[trigger] plan@[k];
                &&& c.index < config::spec_fallback_candidates(preferred@).len()
                &&& c.label@ == config::spec_fallback_candidates(preferred@)[c.index as int]
                &&& config::spec_parse_hotkey(c.label@) == Some((c.mods, c.vk))
            },
        forall|k: int, l: int| 0 <= k < l < plan@.len() ==> plan@[k].index < plan@[l].index,
        forall|i: int|
            0 <= i < config::spec_fallback_candidates(preferred@).len() && (
            config::spec_parse_hotkey(config::spec_fallback_candidates(preferred@)[i]) is Some)
                ==> exists|k: int| 0 <= k < plan@.len() && #[trigger] plan@[k].index == i,
{
    let cands = config::hotkey_fallback_candidates(preferred);
    let mut plan: Vec<InstallCandidate> = Vec::new();
    let mut i: usize = 0;
    while i < cands.len()
        invariant
            i <= cands@.len(),
            config::views(cands@) == config::spec_fallback_candidates(preferred@),
            forall|k: int|
                0 <= k < plan@.len() ==> {
                    let c = #[trigger] plan@[k];
                    &&& c.index < i
                    &&& c.label@ == config::spec_fallback_candidates(preferred@)[c.index as int]
                    &&& config::spec_parse_hotkey(c.label@) == Some((c.mods, c.vk))
                },
            forall|k: int, l: int| 0 <= k < l < plan@.len() ==> plan@[k].index < plan@[l].index,
            forall|j: int|
                0 <= j < i && (config::spec_parse_hotkey(config::spec_fallback_candidates(preferred@)[j]) is Some)
                    ==> exists|k: int| 0 <= k < plan@.len() && #[trigger] plan@[k].index == j,
        decreases cands.len() - i,
    {
        assert(config::views(cands@)[i as int] == cands@[i as int]@);
        match config::parse_hotkey(cands[i].as_str()) {
            Some((mods, vk)) => {
                let ghost before = plan@;
                plan.push(InstallCandidate { index: i, label: cands[i].clone(), mods, vk });
                assert(plan@[plan@.len() - 1].index == i);
                assert forall|j: int|
                    0 <= j < i + 1 && (config::spec_parse_hotkey(config::spec_fallback_candidates(preferred@)[j]) is Some)
                        implies exists|k: int| 0 <= k < plan@.len() && #[trigger] plan@[k].index == j by {
                    if j < i {
                        let k = choose|k: int| 0 <= k < before.len() && #[trigger] before[k].index == j;
                        assert(plan@[k] == before[k]);
                    } else {
                        assert(plan@[plan@.len() - 1].index == j);
                    }
                }
            },
            None => {},
        }
        i += 1;
    }
    assert(config::views(cands@).len() == cands@.len());
    plan
}

/// What to do after trying to register candidate number `index`.
pub fn after_register(index: usize, registered: bool) -> (a: AfterRegister)
    ensures
        registered ==> a == AfterRegister::Done,
        !registered && index == 0 ==> a == AfterRegister::TryHook,
        !registered && index != 0 ==> a == AfterRegister::Next,
{
    if registered {
        AfterRegister::Done
    } else if index == 0 {
        AfterRegister::TryHook
    } else {
        AfterRegister::Next
    }
}

/// The candidate an install settles on, from position `i` on: the first
/// that parses and either registers (`reg`, by position; a missing entry
/// is a failure) or, being the preferred one at position 0, is taken by
/// the keyboard hook (`hook_ok`). The result is its position and whether
/// the hook holds it.
pub open spec fn pick_from(cands: Seq<Seq<char>>, reg: Seq<bool>, hook_ok: bool, i: int) -> Option<(int, bool)>
    decreases cands.len() - i,
{
    if i < 0 || i >= cands.len() {
        None
    } else if config::spec_parse_hotkey(cands[i]) is None {
        pick_from(cands, reg, hook_ok, i + 1)
    } else if i < reg.len() && reg[i] {
        Some((i, false))
    } else if i == 0 && hook_ok {
        Some((0, true))
    } else {
        pick_from(cands, reg, hook_ok, i + 1)
    }
}

/// The active hotkey label after an install, and whether the keyboard hook
/// holds it: the picked candidate, or `preferred` (not hooked) when none.
pub open spec fn installed(preferred: Seq<char>, reg: Seq<bool>, hook_ok: bool) -> (Seq<char>, bool) {
    let cands = config::spec_fallback_candidates(preferred);
    match pick_from(cands, reg, hook_ok, 0) {
        Some((i, hooked)) => (cands[i], hooked),
        None => (preferred, false),
    }
}

/// The install's decision, given the outcomes of the attempts it would
/// make: `registered[i]` whether registering candidate `i` of
/// `config::hotkey_fallback_candidates(preferred)` succeeds, `hook_ok`
/// whether the keyboard hook can be installed. Returns the active label
/// and whether the hook holds it (see `installed`).
pub fn install_outcome(preferred: &str, registered: &Vec<bool>, hook_ok: bool) -> (r: (String, bool))
    ensures
        (r.0@, r.1) == installed(preferred@, registered@, hook_ok),
{
    let cands = config::hotkey_fallback_candidates(preferred);
    let ghost cs = config::spec_fallback_candidates(preferred@);
    let mut i: usize = 0;
    while i < cands.len()
        invariant
            i <= cands@.len(),
            config::views(cands@) == cs,
            cs == config::spec_fallback_candidates(preferred@),
            pick_from(cs, registered@, hook_ok, i as int) == pick_from(cs, registered@, hook_ok, 0),
        decreases cands.len() - i,
    {
        assert(config::views(cands@)[i as int] == cands@[i as int]@);
        if config::parse_hotkey(cands[i].as_str()).is_some() {
            if i < registered.len() && registered[i] {
                return (cands[i].clone(), false);
            }
            if i == 0 && hook_ok {
                return (cands[i].clone(), true);
            }
        }
        i += 1;
    }
    (preferred.to_owned(), false)
}

} // verus!
