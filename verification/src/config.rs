//! Hotkey strings: parsing `"Alt+Space"`-style descriptions into
//! `RegisterHotKey` modifier bits and a virtual-key code, and the list of
//! fallback hotkeys tried when the preferred one is taken.
use vstd::prelude::*;
use crate::text;

verus! {

/// RegisterHotKey modifier bits (without `MOD_NOREPEAT`).
pub const MOD_ALT: u32 = 0x0001;

pub const MOD_CONTROL: u32 = 0x0002;

pub const MOD_SHIFT: u32 = 0x0004;

pub const MOD_WIN: u32 = 0x0008;

/// The meaning of one `+`-separated part of a hotkey string.
pub enum HotkeyPart {
    Modifier(u32),
    Key(u32),
    Invalid,
}

/// `s.split(sep)`: the pieces between separators, in order.
pub open spec fn split_on(s: Seq<char>, sep: char) -> Seq<Seq<char>>
    decreases s.len(),
{
    if s.len() == 0 {
        seq![Seq::<char>::empty()]
    } else {
        let rest = split_on(s.drop_last(), sep);
        if s.last() == sep {
            rest.push(Seq::<char>::empty())
        } else {
            rest.update(rest.len() - 1, rest.last().push(s.last()))
        }
    }
}

/// What one (untrimmed) part of a hotkey string stands for.
pub open spec fn classify_part(p: Seq<char>) -> HotkeyPart {
    let t = text::trim(p);
    let l = text::ascii_lower(t);
    if t.len() == 0 {
        HotkeyPart::Invalid
    } else if l == "alt"@ || l == "menu"@ {
        HotkeyPart::Modifier(MOD_ALT)
    } else if l == "ctrl"@ || l == "control"@ {
        HotkeyPart::Modifier(MOD_CONTROL)
    } else if l == "shift"@ {
        HotkeyPart::Modifier(MOD_SHIFT)
    } else if l == "win"@ || l == "super"@ || l == "meta"@ {
        HotkeyPart::Modifier(MOD_WIN)
    } else if l == "space"@ {
        HotkeyPart::Key(0x20)
    } else if l.len() == 1 && (l[0] as u32) < 0x80 && text::is_alnum(text::upper_char(l[0])) {
        HotkeyPart::Key(text::upper_char(l[0]) as u32)
    } else {
        HotkeyPart::Invalid
    }
}

/// One step of the fold over the parts.
pub open spec fn step_part(state: Option<(u32, Option<u32>)>, part: HotkeyPart) -> Option<(u32, Option<u32>)> {
    match state {
        None => None,
        Some((mods, vk)) => match part {
            HotkeyPart::Invalid => None,
            HotkeyPart::Modifier(bit) => Some((mods | bit, vk)),
            HotkeyPart::Key(k) => Some((mods, Some(k))),
        },
    }
}

/// Modifiers so far and the last key, or `None` after an invalid part.
pub open spec fn fold_parts(parts: Seq<Seq<char>>) -> Option<(u32, Option<u32>)>
    decreases parts.len(),
{
    if parts.len() == 0 {
        Some((0u32, None))
    } else {
        step_part(fold_parts(parts.drop_last()), classify_part(parts.last()))
    }
}

/// `parse_hotkey`: every part must be a modifier or a key, and a key must
/// be present; modifiers accumulate and the last key wins.
pub open spec fn spec_parse_hotkey(s: Seq<char>) -> Option<(u32, u32)> {
    match fold_parts(split_on(s, '+')) {
        Some((mods, Some(vk))) => Some((mods, vk)),
        _ => None,
    }
}

fn classify(part: &Vec<char>) -> (r: HotkeyPart)
    ensures
        r == classify_part(part@),
{
    let t = text::trim_chars(part);
    let l = text::lower_chars(&t);
    if t.len() == 0 {
        HotkeyPart::Invalid
    } else if text::eq_str(&l, "alt") || text::eq_str(&l, "menu") {
        HotkeyPart::Modifier(MOD_ALT)
    } else if text::eq_str(&l, "ctrl") || text::eq_str(&l, "control") {
        HotkeyPart::Modifier(MOD_CONTROL)
    } else if text::eq_str(&l, "shift") {
        HotkeyPart::Modifier(MOD_SHIFT)
    } else if text::eq_str(&l, "win") || text::eq_str(&l, "super") || text::eq_str(&l, "meta") {
        HotkeyPart::Modifier(MOD_WIN)
    } else if text::eq_str(&l, "space") {
        HotkeyPart::Key(0x20)
    } else if l.len() == 1 && (l[0] as u32) < 0x80 {
        let c = text::to_upper_char(l[0]);
        if text::is_ascii_alnum(c) {
            HotkeyPart::Key(c as u32)
        } else {
            HotkeyPart::Invalid
        }
    } else {
        HotkeyPart::Invalid
    }
}

fn step(state: Option<(u32, Option<u32>)>, part: HotkeyPart) -> (r: Option<(u32, Option<u32>)>)
    ensures
        r == step_part(state, part),
{
    match state {
        None => None,
        Some((mods, vk)) => match part {
            HotkeyPart::Invalid => None,
            HotkeyPart::Modifier(bit) => Some((mods | bit, vk)),
            HotkeyPart::Key(k) => Some((mods, Some(k))),
        },
    }
}

/// Parse `"Alt+Space"`, `"Ctrl+Shift+F"`, etc. into `(modifiers, virtual_key)`.
pub fn parse_hotkey(s: &str) -> (r: Option<(u32, u32)>)
    ensures
        r == spec_parse_hotkey(s@),
{
    let v = text::chars_of(s);
    let mut state: Option<(u32, Option<u32>)> = Some((0, None));
    let mut cur: Vec<char> = Vec::new();
    let mut i: usize = 0;
    proof {
        assert(v@.take(0) == Seq::<char>::empty());
    }
    while i < v.len()
        invariant
            i <= v.len(),
            v@ == s@,
            split_on(v@.take(i as int), '+').len() >= 1,
            cur@ == split_on(v@.take(i as int), '+').last(),
            fold_parts(split_on(v@.take(i as int), '+').drop_last()) == state,
        decreases v.len() - i,
    {
        let ghost before = split_on(v@.take(i as int), '+');
        let ghost next = v@.take(i + 1);
        assert(next.drop_last() == v@.take(i as int));
        assert(next.last() == v@[i as int]);
        if v[i] == '+' {
            let part = classify(&cur);
            state = step(state, part);
            cur = Vec::new();
            proof {
                let ps = split_on(next, '+');
                assert(ps == before.push(Seq::<char>::empty()));
                assert(ps.drop_last() == before);
                assert(before.drop_last().push(before.last()) == before);
                assert(fold_parts(before) == step_part(
                    fold_parts(before.drop_last()),
                    classify_part(before.last()),
                ));
            }
        } else {
            cur.push(v[i]);
            proof {
                let ps = split_on(next, '+');
                assert(ps == before.update(before.len() - 1, before.last().push(v@[i as int])));
                assert(ps.drop_last() == before.drop_last());
            }
        }
        i += 1;
    }
    assert(v@.take(v.len() as int) == v@);
    let part = classify(&cur);
    state = step(state, part);
    match state {
        Some((mods, Some(k))) => Some((mods, k)),
        _ => None,
    }
}

// ---------------------------------------------------------------------------
// Fallback hotkeys
// ---------------------------------------------------------------------------

/// `list` with `s` appended unless an entry already equals it ignoring ASCII case.
pub open spec fn push_unique(list: Seq<Seq<char>>, s: Seq<char>) -> Seq<Seq<char>> {
    if exists|i: int| 0 <= i < list.len() && text::eq_ignore_case(#[trigger] list[i], s) {
        list
    } else {
        list.push(s)
    }
}

/// The preferred hotkey first, then the common launcher alternatives not
/// already present.
pub open spec fn spec_fallback_candidates(preferred: Seq<char>) -> Seq<Seq<char>> {
    push_unique(
        push_unique(
            push_unique(
                push_unique(
                    push_unique(push_unique(Seq::empty(), preferred), "Alt+Space"@),
                    "Ctrl+Space"@,
                ),
                "Alt+Shift+Space"@,
            ),
            "Ctrl+Shift+Space"@,
        ),
        "Ctrl+Alt+Space"@,
    )
}

/// No two entries are equal ignoring ASCII case.
pub open spec fn distinct_ignoring_case(list: Seq<Seq<char>>) -> bool {
    forall|i: int, j: int|
        0 <= i < j < list.len() ==> !text::eq_ignore_case(#[trigger] list[i], #[trigger] list[j])
}

proof fn lemma_push_unique(list: Seq<Seq<char>>, s: Seq<char>)
    requires
        distinct_ignoring_case(list),
    ensures
        distinct_ignoring_case(push_unique(list, s)),
        push_unique(list, s).len() >= list.len(),
        forall|i: int| 0 <= i < list.len() ==> push_unique(list, s)[i] == list[i],
{
    if !(exists|i: int| 0 <= i < list.len() && text::eq_ignore_case(#[trigger] list[i], s)) {
        let r = list.push(s);
        assert forall|i: int, j: int| 0 <= i < j < r.len() implies !text::eq_ignore_case(
            #[trigger] r[i],
            #[trigger] r[j],
        ) by {
            if j == list.len() {
                assert(r[j] == s);
                assert(r[i] == list[i]);
            } else {
                assert(r[i] == list[i] && r[j] == list[j]);
            }
        }
    }
}

/// The preferred hotkey is always tried first, and no hotkey is tried
/// twice (ASCII case ignored).
pub proof fn lemma_fallback_candidates(preferred: Seq<char>)
    ensures
        spec_fallback_candidates(preferred).len() >= 1,
        spec_fallback_candidates(preferred)[0] == preferred,
        distinct_ignoring_case(spec_fallback_candidates(preferred)),
{
    let l0 = Seq::<Seq<char>>::empty();
    let l1 = push_unique(l0, preferred);
    assert(l1 == seq![preferred]);
    let l2 = push_unique(l1, "Alt+Space"@);
    let l3 = push_unique(l2, "Ctrl+Space"@);
    let l4 = push_unique(l3, "Alt+Shift+Space"@);
    let l5 = push_unique(l4, "Ctrl+Shift+Space"@);
    lemma_push_unique(l0, preferred);
    lemma_push_unique(l1, "Alt+Space"@);
    lemma_push_unique(l2, "Ctrl+Space"@);
    lemma_push_unique(l3, "Alt+Shift+Space"@);
    lemma_push_unique(l4, "Ctrl+Shift+Space"@);
    lemma_push_unique(l5, "Ctrl+Alt+Space"@);
}

pub open spec fn views(v: Seq<String>) -> Seq<Seq<char>> {
    v.map_values(|s: String| s@)
}

fn push_candidate(list: &mut Vec<String>, s: &str)
    ensures
        views(final(list)@) == push_unique(views(old(list)@), s@),
{
    let sv = text::chars_of(s);
    let mut i: usize = 0;
    while i < list.len()
        invariant
            i <= list.len(),
            list@ == old(list)@,
            sv@ == s@,
            forall|j: int| 0 <= j < i ==> !text::eq_ignore_case(#[trigger] views(list@)[j], s@),
        decreases list.len() - i,
    {
        let item = text::chars_of(list[i].as_str());
        let t = text::string_of(&sv, 0, sv.len());
        assert(sv@.subrange(0, sv.len() as int) == sv@);
        if text::eq_ignore_case_str(&item, t.as_str()) {
            assert(text::eq_ignore_case(views(list@)[i as int], s@));
            return;
        }
        i += 1;
    }
    list.push(s.to_owned());
    assert(views(list@) == views(old(list)@).push(s@));
}

/// Preferred hotkey first, then common launcher alternatives.
pub fn hotkey_fallback_candidates(preferred: &str) -> (r: Vec<String>)
    ensures
        views(r@) == spec_fallback_candidates(preferred@),
{
    let mut out: Vec<String> = Vec::new();
    assert(views(out@) == Seq::<Seq<char>>::empty());
    push_candidate(&mut out, preferred);
    push_candidate(&mut out, "Alt+Space");
    push_candidate(&mut out, "Ctrl+Space");
    push_candidate(&mut out, "Alt+Shift+Space");
    push_candidate(&mut out, "Ctrl+Shift+Space");
    push_candidate(&mut out, "Ctrl+Alt+Space");
    out
}

} // verus!
