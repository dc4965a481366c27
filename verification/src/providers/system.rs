//! System commands: `shutdown`, `restart`, `sleep`, `lock`, `volume`,
//! `mute`, `screen off`, `timer`, `password` and `screenshot`.
//!
//! A command matches when the trimmed, lower-cased query is the command word
//! or starts with it and a space, so `lock` matches and `locksmith` does not.
use vstd::prelude::*;
use crate::text;
use super::{plain_result, SearchResult};

verus! {

/// Number of commands in the table.
pub const COMMAND_COUNT: usize = 11;

/// The command table: query keyword, title, subtitle, action.
pub open spec fn command(i: int) -> (Seq<char>, Seq<char>, Seq<char>, Seq<char>) {
    if i == 0 {
        ("shutdown"@, "Shut down"@, "Turn the computer off"@, "shutdown"@)
    } else if i == 1 {
        ("restart"@, "Restart"@, "Restart the computer"@, "restart"@)
    } else if i == 2 {
        ("reboot"@, "Restart"@, "Restart the computer"@, "restart"@)
    } else if i == 3 {
        ("sleep"@, "Sleep"@, "Put the computer to sleep"@, "sleep"@)
    } else if i == 4 {
        ("lock"@, "Lock"@, "Lock the computer"@, "lock"@)
    } else if i == 5 {
        ("volume"@, "Volume"@, "Set the volume, e.g. volume 40"@, "volume"@)
    } else if i == 6 {
        ("mute"@, "Mute"@, "Turn the volume down to 0"@, "mute"@)
    } else if i == 7 {
        ("screen off"@, "Screen off"@, "Turn the display off"@, "screenoff"@)
    } else if i == 8 {
        (
            "timer"@,
            "Timer"@,
            "Ping after N minutes, e.g. timer 10 · timer 5m · timer 30s"@,
            "timer"@,
        )
    } else if i == 9 {
        (
            "password"@,
            "Strong password"@,
            "Random secure password to the clipboard (password 24 for length)"@,
            "password"@,
        )
    } else {
        ("screenshot"@, "Screenshot"@, "Capture the whole screen to the clipboard"@, "screenshot"@)
    }
}

fn command_entry(i: usize) -> (r: (&'static str, &'static str, &'static str, &'static str))
    requires
        i < COMMAND_COUNT,
    ensures
        (r.0@, r.1@, r.2@, r.3@) == command(i as int),
{
    if i == 0 {
        ("shutdown", "Shut down", "Turn the computer off", "shutdown")
    } else if i == 1 {
        ("restart", "Restart", "Restart the computer", "restart")
    } else if i == 2 {
        ("reboot", "Restart", "Restart the computer", "restart")
    } else if i == 3 {
        ("sleep", "Sleep", "Put the computer to sleep", "sleep")
    } else if i == 4 {
        ("lock", "Lock", "Lock the computer", "lock")
    } else if i == 5 {
        ("volume", "Volume", "Set the volume, e.g. volume 40", "volume")
    } else if i == 6 {
        ("mute", "Mute", "Turn the volume down to 0", "mute")
    } else if i == 7 {
        ("screen off", "Screen off", "Turn the display off", "screenoff")
    } else if i == 8 {
        ("timer", "Timer", "Ping after N minutes, e.g. timer 10 · timer 5m · timer 30s", "timer")
    } else if i == 9 {
        (
            "password",
            "Strong password",
            "Random secure password to the clipboard (password 24 for length)",
            "password",
        )
    } else {
        ("screenshot", "Screenshot", "Capture the whole screen to the clipboard", "screenshot")
    }
}

/// The first command from `i` on whose keyword `q` is, or starts with
/// followed by a space.
pub open spec fn first_command(q: Seq<char>, i: int) -> Option<int>
    decreases COMMAND_COUNT - i,
{
    if i < 0 || i >= COMMAND_COUNT {
        None
    } else if q == command(i).0 || text::starts_with(q, command(i).0 + " "@) {
        Some(i)
    } else {
        first_command(q, i + 1)
    }
}

/// The command that `query` names, matched on its trimmed, lower-cased form.
pub open spec fn spec_parse(query: Seq<char>) -> Option<int> {
    first_command(text::unicode_lower(text::trim(query)), 0)
}

/// The command that `query` names (its index in the table).
pub fn parse(query: &str) -> (r: Option<usize>)
    ensures
        r matches Some(i) ==> spec_parse(query@) == Some(i as int) && i < COMMAND_COUNT,
        r is None ==> spec_parse(query@) is None,
{
    let v = text::chars_of(query);
    let t = text::trim_chars(&v);
    let q = text::lower_unicode_chars(&t);
    assert(q@.skip(0) == q@);
    let mut i: usize = 0;
    while i < COMMAND_COUNT
        invariant
            i <= COMMAND_COUNT,
            q@ == text::unicode_lower(text::trim(query@)),
            q@.skip(0) == q@,
            first_command(q@, i as int) == first_command(q@, 0),
        decreases COMMAND_COUNT - i,
    {
        let (kw, _, _, _) = command_entry(i);
        let kws = text::concat(kw, " ");
        if text::eq_str(&q, kw) || text::starts_with_at(&q, 0, kws.as_str()) {
            return Some(i);
        }
        i += 1;
    }
    None
}

/// The characters of `t` after its first `k` UTF-8 bytes (`str::get(k..)`):
/// none when `k` is past the end or inside a character.
pub open spec fn after_bytes(t: Seq<char>, k: int) -> Option<Seq<char>>
    decreases t.len(),
{
    if k == 0 {
        Some(t)
    } else if k < 0 || t.len() == 0 {
        None
    } else {
        after_bytes(t.drop_first(), k - text::char_width(t[0]))
    }
}

/// The text after `keyword` in `query`: the trimmed query less the
/// keyword's byte length, trimmed; empty when that cut is not possible.
pub open spec fn spec_arg_after(query: Seq<char>, keyword: Seq<char>) -> Seq<char> {
    match after_bytes(text::trim(query), text::utf8_len(keyword) as int) {
        Some(r) => text::trim(r),
        None => Seq::empty(),
    }
}

/// The text after `keyword` in `query` (trimmed), or empty when absent.
pub fn arg_after(query: &str, keyword: &str) -> (r: Vec<char>)
    ensures
        r@ == spec_arg_after(query@, keyword@),
{
    let v = text::chars_of(query);
    let t = text::trim_chars(&v);
    let kv = text::chars_of(keyword);
    let k = text::utf8_len_of(&kv);
    let mut i: usize = 0;
    let mut w: u128 = 0;
    assert(t@.skip(0) == t@);
    while i < t.len() && w < k
        invariant
            i <= t@.len(),
            w <= k,
            k == text::utf8_len(keyword@),
            t@ == text::trim(query@),
            after_bytes(t@, k as int) == after_bytes(t@.skip(i as int), k - w),
        decreases t.len() - i,
    {
        let cw = text::char_width_exec(t[i]);
        assert(t@.skip(i as int).drop_first() == t@.skip(i + 1));
        assert(t@.skip(i as int)[0] == t@[i as int]);
        if (cw as u128) > k - w {
            assert(after_bytes(t@.skip(i + 1), k - w - cw) is None) by {
                lemma_after_bytes_negative(t@.skip(i + 1), k - w - cw);
            }
            assert(after_bytes(t@.skip(i as int), k - w) == after_bytes(t@.skip(i + 1), k - w - cw));
            return Vec::new();
        }
        w = w + cw as u128;
        i += 1;
    }
    if w < k {
        assert(t@.skip(i as int).len() == 0);
        return Vec::new();
    }
    let rest = text::subvec(&t, i, t.len());
    assert(rest@ == t@.skip(i as int));
    text::trim_chars(&rest)
}

proof fn lemma_after_bytes_negative(t: Seq<char>, k: int)
    requires
        k < 0,
    ensures
        after_bytes(t, k) is None,
{
}

/// `arg` parsed the way `timer` reads it: a number of minutes, or a number
/// with an `h`, `m` or `s` suffix (any case); the result in seconds, from
/// one second up to 24 hours.
pub open spec fn spec_parse_timer_seconds(arg: Seq<char>) -> Option<u32> {
    let a = text::unicode_lower(text::trim(arg));
    let (digits, mult) = if text::ends_with(a, "h"@) {
        (a.drop_last(), 3600nat)
    } else if text::ends_with(a, "m"@) {
        (a.drop_last(), 60nat)
    } else if text::ends_with(a, "s"@) {
        (a.drop_last(), 1nat)
    } else {
        (a, 60nat)
    };
    match text::parse_unsigned(text::trim(digits), u64::MAX as nat) {
        None => None,
        Some(n) => {
            let secs = n * mult;
            if secs > u64::MAX || secs == 0 || secs > 24 * 3600 {
                None
            } else {
                Some(secs as u32)
            }
        },
    }
}

/// Parse a timer duration: bare number = minutes, `90s` seconds, `5m`
/// minutes, `1h` hours. Total seconds, 1 s to 24 h.
pub fn parse_timer_seconds(arg: &str) -> (r: Option<u32>)
    ensures
        r == spec_parse_timer_seconds(arg@),
{
    let v = text::chars_of(arg);
    let t = text::trim_chars(&v);
    let a = text::lower_unicode_chars(&t);
    let n = a.len();
    let (end, mult): (usize, u64) = if n > 0 && a[n - 1] == 'h' {
        (n - 1, 3600)
    } else if n > 0 && a[n - 1] == 'm' {
        (n - 1, 60)
    } else if n > 0 && a[n - 1] == 's' {
        (n - 1, 1)
    } else {
        (n, 60)
    };
    proof {
        reveal_strlit("h");
        reveal_strlit("m");
        reveal_strlit("s");
        lemma_ends_with_char(a@, 'h', "h"@);
        lemma_ends_with_char(a@, 'm', "m"@);
        lemma_ends_with_char(a@, 's', "s"@);
        if n > 0 {
            assert(a@.drop_last() == a@.subrange(0, n - 1));
        }
        assert(a@.subrange(0, n as int) == a@);
    }
    let digits = text::subvec(&a, 0, end);
    let d = text::trim_chars(&digits);
    assert(d@.subrange(0, d@.len() as int) == d@);
    match text::parse_unsigned_exec(&d, 0, d.len(), u64::MAX) {
        None => None,
        Some(num) => match num.checked_mul(mult) {
            None => None,
            Some(secs) => if secs == 0 || secs > 24 * 3600 {
                None
            } else {
                Some(secs as u32)
            },
        },
    }
}

proof fn lemma_ends_with_char(s: Seq<char>, c: char, lit: Seq<char>)
    requires
        lit.len() == 1,
        lit[0] == c,
    ensures
        text::ends_with(s, lit) == (s.len() > 0 && s.last() == c),
{
    if s.len() > 0 {
        if s.last() == c {
            assert(s.skip(s.len() - 1) =~= lit);
        } else {
            assert(s.skip(s.len() - 1)[0] == s.last());
        }
    }
}

/// A timer is at least one second and at most 24 hours.
pub proof fn lemma_timer_bounds(arg: Seq<char>)
    ensures
        spec_parse_timer_seconds(arg) matches Some(s) ==> 1 <= s <= 24 * 3600,
{
}

/// `total` seconds in words: `M min S sec`, `M min` or `S sec`.
pub open spec fn spec_format_duration(total: u32) -> Seq<char> {
    let m = total / 60;
    let s = total % 60;
    if m > 0 && s > 0 {
        text::decimal(m as nat) + " min "@ + text::decimal(s as nat) + " sec"@
    } else if m > 0 {
        text::decimal(m as nat) + " min"@
    } else {
        text::decimal(s as nat) + " sec"@
    }
}

/// The run of digits that `s` starts with.
pub open spec fn digit_prefix(s: Seq<char>) -> Seq<char> {
    s.take(text::first_where(s, 0, |c: char| !text::is_digit(c)))
}

/// The number of seconds a duration text says: `M min`, `S sec` or
/// `M min S sec`, each a run of decimal digits; `None` for other text.
pub open spec fn read_duration(s: Seq<char>) -> Option<nat> {
    let a = digit_prefix(s);
    let r = s.skip(a.len() as int);
    if a.len() == 0 {
        None
    } else if r == " min"@ {
        Some(60 * text::digits_value(a))
    } else if r == " sec"@ {
        Some(text::digits_value(a))
    } else if r.len() > 5 && r.take(5) == " min "@ {
        let t = r.skip(5);
        let b = digit_prefix(t);
        if b.len() > 0 && t.skip(b.len() as int) == " sec"@ {
            Some(60 * text::digits_value(a) + text::digits_value(b))
        } else {
            None
        }
    } else {
        None
    }
}

proof fn lemma_digit_prefix_of(d: Seq<char>, rest: Seq<char>)
    requires
        text::all_digits(d),
        rest.len() > 0,
        rest[0] == ' ',
    ensures
        digit_prefix(d + rest) == d,
        (d + rest).skip(d.len() as int) == rest,
{
    let s = d + rest;
    text::lemma_first_where_in(s, 0, |c: char| !text::is_digit(c), d.len() as int);
    assert(s.take(d.len() as int) == d);
    assert(s.skip(d.len() as int) == rest);
}

/// A duration text reads back as the seconds it was made from.
pub proof fn lemma_duration_reads_back(total: u32)
    ensures
        read_duration(spec_format_duration(total)) == Some(total as nat),
{
    let m = (total / 60) as nat;
    let sec = (total % 60) as nat;
    reveal_strlit(" min ");
    reveal_strlit(" min");
    reveal_strlit(" sec");
    text::lemma_decimal_reads_back(m);
    text::lemma_decimal_reads_back(sec);
    let dm = text::decimal(m);
    let ds = text::decimal(sec);
    if m > 0 && sec > 0 {
        let tail = " min "@ + ds + " sec"@;
        assert(spec_format_duration(total) == dm + tail);
        lemma_digit_prefix_of(dm, tail);
        let r = tail;
        assert(r.take(5) == " min "@);
        assert(r.skip(5) == ds + " sec"@);
        lemma_digit_prefix_of(ds, " sec"@);
        assert(r != " min"@);
        assert(r != " sec"@);
    } else if m > 0 {
        lemma_digit_prefix_of(dm, " min"@);
    } else {
        lemma_digit_prefix_of(ds, " sec"@);
        assert(" sec"@[1] != " min"@[1]);
    }
}

/// `total` seconds in words.
pub fn format_duration(total_secs: u32) -> (r: String)
    ensures
        r@ == spec_format_duration(total_secs),
{
    let m = total_secs / 60;
    let s = total_secs % 60;
    let mut out = String::new();
    if m > 0 && s > 0 {
        text::push_all(&mut out, text::decimal_string(m as u64).as_str());
        text::push_all(&mut out, " min ");
        text::push_all(&mut out, text::decimal_string(s as u64).as_str());
        text::push_all(&mut out, " sec");
    } else if m > 0 {
        text::push_all(&mut out, text::decimal_string(m as u64).as_str());
        text::push_all(&mut out, " min");
    } else {
        text::push_all(&mut out, text::decimal_string(s as u64).as_str());
        text::push_all(&mut out, " sec");
    }
    out
}

/// The `password` length asked for: the number after the word, else 16.
pub open spec fn password_length(query: Seq<char>) -> nat {
    match text::parse_unsigned(spec_arg_after(query, "password"@), usize::MAX as nat) {
        Some(n) => n,
        None => 16,
    }
}

/// The single result for `query` (title, subtitle, action), given the
/// current volume when it could be read; `None` when the query names no
/// command or its argument is not accepted.
pub open spec fn spec_outcome(query: Seq<char>, volume: Option<u32>) -> Option<(Seq<char>, Seq<char>, Seq<char>)> {
    match spec_parse(query) {
        None => None,
        Some(i) => {
            let (kw, title, sub, canonical) = command(i);
            if kw == "volume"@ {
                let arg = spec_arg_after(query, "volume"@);
                if arg.len() == 0 {
                    let current = match volume {
                        Some(v) => "Current volume: "@ + text::decimal(v as nat) + "%"@,
                        None => "Set the volume, e.g. volume 40"@,
                    };
                    Some((title, current, "volume:show"@))
                } else {
                    match text::parse_unsigned(arg, u32::MAX as nat) {
                        None => None,
                        Some(level) => if level > 100 {
                            None
                        } else {
                            Some(
                                (
                                    title,
                                    "Set volume to "@ + text::decimal(level) + "%"@,
                                    "volume:"@ + text::decimal(level),
                                ),
                            )
                        },
                    }
                }
            } else if kw == "timer"@ {
                match spec_parse_timer_seconds(spec_arg_after(query, "timer"@)) {
                    None => None,
                    Some(secs) => Some(
                        (
                            title,
                            "Ping me in "@ + spec_format_duration(secs),
                            "timer:"@ + text::decimal(secs as nat),
                        ),
                    ),
                }
            } else if kw == "password"@ {
                let n = password_length(query);
                Some(
                    (
                        title,
                        text::decimal(n) + "-character random password → clipboard"@,
                        "password:"@ + text::decimal(n),
                    ),
                )
            } else if kw == "mute"@ {
                Some((title, "Turn the volume down to 0"@, "mute"@))
            } else if kw == "screen off"@ {
                Some((title, "Turn the display off"@, "screenoff"@))
            } else if kw == "screenshot"@ {
                Some((title, "Whole screen → clipboard"@, "screenshot"@))
            } else {
                Some((title, sub, canonical))
            }
        },
    }
}

/// What an activated system result does.
#[derive(Clone, Copy, Debug, PartialEq, Eq, Structural)]
pub enum SystemAction {
    Lock,
    Sleep,
    Shutdown,
    Restart,
    /// Set the volume to 0.
    Mute,
    ScreenOff,
    Screenshot,
    /// Only shows the current volume.
    ShowVolume,
    /// Set the volume to this level.
    SetVolume(u32),
    /// Start a timer of this many seconds.
    Timer(u32),
    /// Put a random password of this length on the clipboard.
    Password(usize),
    Unknown,
}

/// The number after `prefix` in `action`, or `default` when it does not parse.
pub open spec fn number_after(action: Seq<char>, prefix: Seq<char>, max: nat, default: nat) -> nat {
    match text::parse_unsigned(action.skip(prefix.len() as int), max) {
        Some(n) => n,
        None => default,
    }
}

/// The action that an activated result's `action` text asks for.
pub open spec fn spec_action(action: Seq<char>) -> SystemAction {
    if action == "lock"@ {
        SystemAction::Lock
    } else if action == "sleep"@ {
        SystemAction::Sleep
    } else if action == "shutdown"@ {
        SystemAction::Shutdown
    } else if action == "restart"@ {
        SystemAction::Restart
    } else if action == "mute"@ {
        SystemAction::Mute
    } else if action == "screenoff"@ {
        SystemAction::ScreenOff
    } else if action == "screenshot"@ {
        SystemAction::Screenshot
    } else if action == "volume:show"@ {
        SystemAction::ShowVolume
    } else if text::starts_with(action, "volume:"@) {
        SystemAction::SetVolume(number_after(action, "volume:"@, u32::MAX as nat, 0) as u32)
    } else if text::starts_with(action, "timer:"@) {
        SystemAction::Timer(number_after(action, "timer:"@, u32::MAX as nat, 0) as u32)
    } else if text::starts_with(action, "password:"@) {
        SystemAction::Password(number_after(action, "password:"@, usize::MAX as nat, 16) as usize)
    } else {
        SystemAction::Unknown
    }
}

/// Read an activated result's `action` text.
pub fn parse_action(action: &str) -> (a: SystemAction)
    ensures
        a == spec_action(action@),
{
    let v = text::chars_of(action);
    proof {
        reveal_strlit("volume:");
        reveal_strlit("timer:");
        reveal_strlit("password:");
    }
    if text::eq_str(&v, "lock") {
        SystemAction::Lock
    } else if text::eq_str(&v, "sleep") {
        SystemAction::Sleep
    } else if text::eq_str(&v, "shutdown") {
        SystemAction::Shutdown
    } else if text::eq_str(&v, "restart") {
        SystemAction::Restart
    } else if text::eq_str(&v, "mute") {
        SystemAction::Mute
    } else if text::eq_str(&v, "screenoff") {
        SystemAction::ScreenOff
    } else if text::eq_str(&v, "screenshot") {
        SystemAction::Screenshot
    } else if text::eq_str(&v, "volume:show") {
        SystemAction::ShowVolume
    } else if text::starts_with_at(&v, 0, "volume:") {
        assert(v@.skip(0) == v@);
        assert(v@.subrange(7, v@.len() as int) == v@.skip(7));
        let n = match text::parse_unsigned_exec(&v, 7, v.len(), u32::MAX as u64) {
            Some(n) => n as u32,
            None => 0,
        };
        SystemAction::SetVolume(n)
    } else if text::starts_with_at(&v, 0, "timer:") {
        assert(v@.skip(0) == v@);
        assert(v@.subrange(6, v@.len() as int) == v@.skip(6));
        let n = match text::parse_unsigned_exec(&v, 6, v.len(), u32::MAX as u64) {
            Some(n) => n as u32,
            None => 0,
        };
        SystemAction::Timer(n)
    } else if text::starts_with_at(&v, 0, "password:") {
        assert(v@.skip(0) == v@);
        assert(v@.subrange(9, v@.len() as int) == v@.skip(9));
        let n = match text::parse_unsigned_exec(&v, 9, v.len(), usize::MAX as u64) {
            Some(n) => n as usize,
            None => 16,
        };
        SystemAction::Password(n)
    } else {
        assert(v@.skip(0) == v@);
        SystemAction::Unknown
    }
}

pub struct SystemProvider;

impl SystemProvider {
    /// Runs when the query names a command.
    pub fn should_run(&self, query: &str) -> (b: bool)
        ensures
            b == spec_parse(query@) is Some,
    {
        parse(query).is_some()
    }

    /// The query is a bare `volume`, whose result shows the current level.
    pub fn needs_current_volume(&self, query: &str) -> (b: bool)
        ensures
            b == (spec_parse(query@) matches Some(i) && command(i).0 == "volume"@ && spec_arg_after(
                query@,
                "volume"@,
            ).len() == 0),
    {
        match parse(query) {
            Some(i) => {
                let (kw, _, _, _) = command_entry(i);
                let kv = text::chars_of(kw);
                text::eq_str(&kv, "volume") && arg_after(query, "volume").len() == 0
            },
            None => false,
        }
    }

    /// The result for `query`: one entry (kind `password` for the password
    /// command, `system` otherwise; score 300), or none (see `spec_outcome`).
    /// `volume` is the current volume level, when it could be read.
    pub fn search(&self, query: &str, volume: Option<u32>) -> (r: Vec<SearchResult>)
        ensures
            r.len() == (if spec_outcome(query@, volume) is Some {
                1int
            } else {
                0int
            }),
            spec_outcome(query@, volume) matches Some((title, subtitle, action)) ==> {
                &&& r[0].title@ == title
                &&& r[0].subtitle@ == subtitle
                &&& r[0].action@ == action
                &&& r[0].kind@ == (if text::starts_with(action, "password:"@) {
                    "password"@
                } else {
                    "system"@
                })
                &&& r[0].provider_id@ == "system"@
                &&& r[0].icon_rgba is None
                &&& r[0].score == 300
            },
    {
        let mut out: Vec<SearchResult> = Vec::new();
        let i = match parse(query) {
            Some(i) => i,
            None => return out,
        };
        let (kw, title, sub, canonical) = command_entry(i);
        let kv = text::chars_of(kw);
        let mut subtitle = String::new();
        let mut action = String::new();
        let mut kind = "system";
        if text::eq_str(&kv, "volume") {
            let arg = arg_after(query, "volume");
            if arg.len() == 0 {
                match volume {
                    Some(v) => {
                        text::push_all(&mut subtitle, "Current volume: ");
                        text::push_all(&mut subtitle, text::decimal_string(v as u64).as_str());
                        text::push_all(&mut subtitle, "%");
                    },
                    None => text::push_all(&mut subtitle, "Set the volume, e.g. volume 40"),
                }
                text::push_all(&mut action, "volume:show");
                proof {
                    reveal_strlit("volume:show");
                }
            } else {
                assert(arg@.subrange(0, arg@.len() as int) == arg@);
                let level = match text::parse_unsigned_exec(&arg, 0, arg.len(), u32::MAX as u64) {
                    Some(l) => l,
                    None => return out,
                };
                if level > 100 {
                    return out;
                }
                let ds = text::decimal_string(level);
                text::push_all(&mut subtitle, "Set volume to ");
                text::push_all(&mut subtitle, ds.as_str());
                text::push_all(&mut subtitle, "%");
                text::push_all(&mut action, "volume:");
                text::push_all(&mut action, ds.as_str());
                proof {
                    reveal_strlit("volume:");
                    assert(action@[0] == "volume:"@[0]);
                }
            }
        } else if text::eq_str(&kv, "timer") {
            let arg = arg_after(query, "timer");
            let s = text::string_of(&arg, 0, arg.len());
            assert(arg@.subrange(0, arg@.len() as int) == arg@);
            let secs = match parse_timer_seconds(s.as_str()) {
                Some(x) => x,
                None => return out,
            };
            text::push_all(&mut subtitle, "Ping me in ");
            text::push_all(&mut subtitle, format_duration(secs).as_str());
            text::push_all(&mut action, "timer:");
            text::push_all(&mut action, text::decimal_string(secs as u64).as_str());
            proof {
                reveal_strlit("timer:");
                assert(action@[0] == "timer:"@[0]);
            }
        } else if text::eq_str(&kv, "password") {
            let arg = arg_after(query, "password");
            assert(arg@.subrange(0, arg@.len() as int) == arg@);
            let n = match text::parse_unsigned_exec(&arg, 0, arg.len(), usize::MAX as u64) {
                Some(n) => n,
                None => 16,
            };
            let ds = text::decimal_string(n);
            text::push_all(&mut subtitle, ds.as_str());
            text::push_all(&mut subtitle, "-character random password → clipboard");
            text::push_all(&mut action, "password:");
            text::push_all(&mut action, ds.as_str());
            assert(action@ =~= "password:"@ + ds@);
            kind = "password";
        } else if text::eq_str(&kv, "mute") {
            text::push_all(&mut subtitle, "Turn the volume down to 0");
            text::push_all(&mut action, "mute");
            proof {
                reveal_strlit("mute");
            }
        } else if text::eq_str(&kv, "screen off") {
            text::push_all(&mut subtitle, "Turn the display off");
            text::push_all(&mut action, "screenoff");
            proof {
                reveal_strlit("screenoff");
            }
        } else if text::eq_str(&kv, "screenshot") {
            text::push_all(&mut subtitle, "Whole screen → clipboard");
            text::push_all(&mut action, "screenshot");
            proof {
                reveal_strlit("screenshot");
            }
        } else {
            text::push_all(&mut subtitle, sub);
            text::push_all(&mut action, canonical);
            proof {
                reveal_strlit("shutdown");
                reveal_strlit("restart");
                reveal_strlit("sleep");
                reveal_strlit("lock");
                assert(i <= 4 || i == 10);
            }
        }
        proof {
            reveal_strlit("password");
            reveal_strlit("system");
            if kind@ == "password"@ {
                reveal_strlit("password:");
                assert(action@.take(9) =~= "password:"@);
            } else {
                lemma_not_password(action@);
            }
        }
        out.push(plain_result(title.to_owned(), subtitle, kind, "system", action, 300));
        out
    }
}

/// A text whose first character is not `p` does not start with `password:`.
proof fn lemma_not_password(a: Seq<char>)
    requires
        a.len() > 0,
        a[0] != 'p',
    ensures
        !text::starts_with(a, "password:"@),
{
    reveal_strlit("password:");
    if a.len() >= 9 {
        assert(a.take(9)[0] == a[0]);
    }
}

} // verus!
