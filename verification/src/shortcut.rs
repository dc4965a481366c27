//! Reading a Windows shortcut (`.lnk`) file's string data: the working
//! directory and the icon location, which point to a better icon for the
//! app than the shortcut's own.
use vstd::prelude::*;
use crate::platform::{le_u16, le_u32};

verus! {

/// The two strings of a shortcut that lead to an icon.
pub struct LnkStrings {
    pub working_dir: String,
    pub icon_location: String,
}

/// A high (leading) surrogate.
pub open spec fn is_high_surrogate(u: u16) -> bool {
    0xD800 <= u <= 0xDBFF
}

/// A low (trailing) surrogate.
pub open spec fn is_low_surrogate(u: u16) -> bool {
    0xDC00 <= u <= 0xDFFF
}

/// UTF-16 decoding: a unit outside the surrogates is its character; a high
/// surrogate followed by a low one is the character they combine to; any
/// other surrogate makes the whole text invalid.
pub open spec fn utf16_decode(u: Seq<u16>) -> Option<Seq<char>>
    decreases u.len(),
{
    if u.len() == 0 {
        Some(Seq::empty())
    } else if !is_high_surrogate(u[0]) && !is_low_surrogate(u[0]) {
        match utf16_decode(u.drop_first()) {
            Some(rest) => Some(seq![(u[0] as u32) as char] + rest),
            None => None,
        }
    } else if is_high_surrogate(u[0]) && u.len() >= 2 && is_low_surrogate(u[1]) {
        match utf16_decode(u.skip(2)) {
            Some(rest) => Some(
                seq![(0x10000 + (u[0] - 0xD800) * 0x400 + (u[1] - 0xDC00)) as char] + rest,
            ),
            None => None,
        }
    } else {
        None
    }
}

/// `String::from_utf16`: the text of valid UTF-16 units, `None` on an
/// unpaired surrogate. The contract states the standard UTF-16 decoding
/// (see `utf16_decode`), which is what the documentation promises.
#[verifier::external_body]
fn string_from_utf16(units: &[u16]) -> (r: Option<String>)
    ensures
        match utf16_decode(units@) {
            Some(s) => r matches Some(t) && t@ == s,
            None => r is None,
        },
{
    String::from_utf16(units).ok()
}

/// The little-endian `u16` at `off`, when two bytes are there.
pub open spec fn u16_at(d: Seq<u8>, off: int) -> Option<int> {
    if 0 <= off && off + 2 <= d.len() {
        Some(le_u16(d, off) as int)
    } else {
        None
    }
}

/// Past a counted string at `off` (a `u16` count of UTF-16 units, then the
/// units), without reading it.
pub open spec fn skip_string(d: Seq<u8>, off: int) -> Option<int> {
    match u16_at(d, off) {
        Some(c) => Some(off + 2 + 2 * c),
        None => None,
    }
}

/// The `u16` units stored little-endian in `d[from..from + 2 * n]`.
pub open spec fn units_at(d: Seq<u8>, from: int, n: int) -> Seq<u16> {
    Seq::new(n as nat, |i: int| le_u16(d, from + 2 * i))
}

/// A counted string at `off`: the offset past it and its text, which is
/// all its units but the last (a terminating zero), decoded as UTF-16.
/// None when the count is 0, the string runs past the end, or the units
/// are not valid UTF-16.
pub open spec fn read_string(d: Seq<u8>, off: int) -> Option<(int, Seq<char>)> {
    match u16_at(d, off) {
        None => None,
        Some(c) => if c < 1 || off + 2 + 2 * c > d.len() {
            None
        } else {
            match utf16_decode(units_at(d, off + 2, c - 1)) {
                Some(s) => Some((off + 2 + 2 * c, s)),
                None => None,
            }
        },
    }
}

/// The offset of the string data: after the 76-byte header, the target ID
/// list (flag 1: a `u16` size and that many bytes) and the link info (flag
/// 2: the `u32` at 4 bytes into it, counted from its start).
pub open spec fn string_data_offset(d: Seq<u8>, flags: u32) -> Option<int> {
    let o1: Option<int> = if flags & 1 != 0 {
        match u16_at(d, 76) {
            Some(sz) => Some(76 + 2 + sz),
            None => None,
        }
    } else {
        Some(76)
    };
    match o1 {
        None => None,
        Some(o) => if flags & 2 != 0 {
            if o + 8 <= d.len() {
                Some(o + le_u32(d, o + 4) as int)
            } else {
                None
            }
        } else {
            Some(o)
        },
    }
}

/// Skip the string if the flag says it is there.
pub open spec fn maybe_skip(d: Seq<u8>, off: Option<int>, present: bool) -> Option<int> {
    match off {
        None => None,
        Some(o) => if present {
            skip_string(d, o)
        } else {
            Some(o)
        },
    }
}

/// The strings from offset `o` on, per the flags: the name and relative
/// path are skipped, the working directory read, the arguments skipped,
/// the icon location read (an absent string is empty).
pub open spec fn strings_from(d: Seq<u8>, o: Option<int>, flags: u32) -> Option<(Seq<char>, Seq<char>)> {
    let o = maybe_skip(d, maybe_skip(d, o, flags & 4 != 0), flags & 8 != 0);
    let wd: Option<(int, Seq<char>)> = match o {
        None => None,
        Some(o) => if flags & 0x10 != 0 {
            read_string(d, o)
        } else {
            Some((o, Seq::empty()))
        },
    };
    match wd {
        None => None,
        Some((o2, working)) => {
            match maybe_skip(d, Some(o2), flags & 0x20 != 0) {
                None => None,
                Some(o3) => if flags & 0x40 != 0 {
                    match read_string(d, o3) {
                        Some((_, icon)) => Some((working, icon)),
                        None => None,
                    }
                } else {
                    Some((working, Seq::empty()))
                },
            }
        },
    }
}

/// Working directory and icon location of the shortcut bytes `d`: the file
/// must be at least 76 bytes and start with the header size `4C 00 00 00`;
/// then the strings present per the flags at 0x14 (name, relative path,
/// working directory, arguments, icon location) are walked in order.
pub open spec fn spec_lnk_strings(d: Seq<u8>) -> Option<(Seq<char>, Seq<char>)> {
    if d.len() < 76 || d[0] != 0x4C || d[1] != 0 || d[2] != 0 || d[3] != 0 {
        None
    } else {
        let flags = le_u32(d, 0x14);
        strings_from(d, string_data_offset(d, flags), flags)
    }
}

fn u16_at_exec(d: &[u8], off: u64) -> (r: Option<u64>)
    ensures
        match u16_at(d@, off as int) {
            Some(c) => r == Some(c as u64),
            None => r is None,
        },
{
    if off <= d.len() as u64 && 2 <= d.len() as u64 - off {
        Some(crate::platform::read_le_u16(d, off as usize) as u64)
    } else {
        None
    }
}

fn skip_exec(d: &[u8], off: u64) -> (r: Option<u64>)
    requires
        off <= 0x1_0000_0000_0000,
    ensures
        match skip_string(d@, off as int) {
            Some(o) => r == Some(o as u64) && o <= off + 0x2_0002,
            None => r is None,
        },
{
    match u16_at_exec(d, off) {
        Some(c) => Some(off + 2 + 2 * c),
        None => None,
    }
}

fn read_exec(d: &[u8], off: u64) -> (r: Option<(u64, String)>)
    requires
        off <= 0x1_0000_0000_0000,
    ensures
        match read_string(d@, off as int) {
            Some((o, s)) => r matches Some((o2, t)) && o2 == o && t@ == s && o <= off + 0x2_0002,
            None => r is None,
        },
{
    let c = match u16_at_exec(d, off) {
        Some(c) => c,
        None => return None,
    };
    if c < 1 || off + 2 + 2 * c > d.len() as u64 {
        return None;
    }
    let start = (off + 2) as usize;
    let n = (c - 1) as usize;
    let dl = d.len();
    let mut units: Vec<u16> = Vec::new();
    let mut i: usize = 0;
    while i < n
        invariant
            i <= n,
            dl == d@.len(),
            start + 2 * n + 2 <= dl,
            units@ == units_at(d@, start as int, i as int),
        decreases n - i,
    {
        units.push(crate::platform::read_le_u16(d, start + 2 * i));
        i += 1;
        assert(units@ == units_at(d@, start as int, i as int));
    }
    match string_from_utf16(units.as_slice()) {
        Some(s) => Some((off + 2 + 2 * c, s)),
        None => None,
    }
}

fn string_data_offset_exec(d: &[u8], flags: u32) -> (r: Option<u64>)
    ensures
        match string_data_offset(d@, flags) {
            Some(o) => r == Some(o as u64) && o <= 0x2_0000_0000,
            None => r is None,
        },
{
    let mut off: u64 = 76;
    if flags & 1 != 0 {
        match u16_at_exec(d, 76) {
            Some(sz) => {
                off = 76 + 2 + sz;
            },
            None => return None,
        }
    }
    if flags & 2 != 0 {
        if off + 8 <= d.len() as u64 {
            let sz = crate::platform::read_le_u32(d, (off + 4) as usize);
            off = off + sz as u64;
        } else {
            return None;
        }
    }
    Some(off)
}

fn walk_strings(d: &[u8], start: Option<u64>, flags: u32) -> (r: Option<LnkStrings>)
    requires
        start matches Some(o) ==> o <= 0x2_0000_0000,
    ensures
        match strings_from(d@, match start {
            Some(o) => Some(o as int),
            None => None,
        }, flags) {
            Some((wd, icon)) => r matches Some(s) && s.working_dir@ == wd && s.icon_location@ == icon,
            None => r is None,
        },
{
    let mut off = match start {
        Some(o) => o,
        None => return None,
    };
    if flags & 4 != 0 {
        off = match skip_exec(d, off) {
            Some(o) => o,
            None => return None,
        };
    }
    if flags & 8 != 0 {
        off = match skip_exec(d, off) {
            Some(o) => o,
            None => return None,
        };
    }
    let mut working_dir = String::new();
    if flags & 0x10 != 0 {
        match read_exec(d, off) {
            Some((o, s)) => {
                working_dir = s;
                off = o;
            },
            None => return None,
        }
    }
    if flags & 0x20 != 0 {
        off = match skip_exec(d, off) {
            Some(o) => o,
            None => return None,
        };
    }
    let mut icon_location = String::new();
    if flags & 0x40 != 0 {
        match read_exec(d, off) {
            Some((_, s)) => {
                icon_location = s;
            },
            None => return None,
        }
    }
    Some(LnkStrings { working_dir, icon_location })
}

/// The working directory and icon location of shortcut bytes `d` (see
/// `spec_lnk_strings`; an absent string is empty).
pub fn parse_lnk_strings(d: &[u8]) -> (r: Option<LnkStrings>)
    ensures
        match spec_lnk_strings(d@) {
            Some((wd, icon)) => r matches Some(s) && s.working_dir@ == wd && s.icon_location@ == icon,
            None => r is None,
        },
{
    if d.len() < 76 || d[0] != 0x4C || d[1] != 0 || d[2] != 0 || d[3] != 0 {
        return None;
    }
    let flags = crate::platform::read_le_u32(d, 0x14);
    let start = string_data_offset_exec(d, flags);
    walk_strings(d, start, flags)
}

} // verus!
