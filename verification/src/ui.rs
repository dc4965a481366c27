//! The launcher window's decisions: what a key, a click or the outcome of
//! an action does to the window's state, and what the front end must do
//! next (search, activate, hide, …). The front end performs the action and
//! reports its outcome back.
use vstd::prelude::*;
use crate::actions::{FileAction, Mode};
use crate::text;
use crate::theme;

verus! {

/// The hint under a selected file result.
pub const FILES_HINT: &'static str = "Enter open  ·  Alt+C copy path  ·  Alt+F copy file  ·  Alt+Enter reveal";

/// The hint under a selected clipboard entry.
pub const CLIPBOARD_HINT: &'static str = "Enter copy  ·  Right-click to pin";

/// A shown result, as far as the window's decisions read it.
pub struct Shown {
    pub provider_id: String,
    pub kind: String,
    pub title: String,
}

/// The shown results as values: (provider, kind, title).
pub open spec fn shown_view(s: Seq<Shown>) -> Seq<(Seq<char>, Seq<char>, Seq<char>)> {
    s.map_values(|r: Shown| (r.provider_id@, r.kind@, r.title@))
}

/// A key the window reacts to (`Character` carries the key's text).
pub enum Key {
    Escape,
    ArrowUp,
    ArrowDown,
    Enter,
    Backspace,
    Character(String),
    Other,
}

/// The modifier keys held.
#[derive(Clone, Copy)]
pub struct Mods {
    pub ctrl: bool,
    pub alt: bool,
    pub shift: bool,
}

/// What the front end does after a decision.
pub enum Action {
    Nothing,
    /// Hide the window.
    Hide,
    /// Write the settings draft into the configuration and save it, then
    /// search for the (now empty) input.
    LeaveSettings,
    /// Fill the settings draft from the configuration and show the panel.
    OpenSettings,
    /// Turn starting with the system on or off.
    SetAutostart(bool),
    /// Re-index files with this depth and entry cap.
    ApplyFileLimits(usize, usize),
    /// Run the query and report the rows with `on_results`.
    Search(String),
    /// Scroll the list to the selected row (none when negative).
    ScrollTo(i32),
    /// Perform the row at this index and report with `on_activated`.
    Activate(usize),
    /// Toggle the pin of the clipboard row at this index and report with
    /// `on_pinned`.
    Pin(usize),
    /// Run the file action on the row at this index and report with
    /// `on_file_action_done`; the flag tells a right-click from a key.
    RunFileAction(usize, FileAction, bool),
}

/// The window's state: the panel, the input, the selected row (-1 for
/// none), the status line and the hint line.
pub struct Launcher {
    pub mode: Mode,
    pub input: String,
    pub selected: i32,
    pub status: Option<String>,
    pub hint: Option<String>,
}

pub open spec fn opt_view(o: Option<String>) -> Option<Seq<char>> {
    match o {
        Some(s) => Some(s@),
        None => None,
    }
}

/// The state as values: (panel, input, selected, status, hint).
pub type LauncherView = (Mode, Seq<char>, i32, Option<Seq<char>>, Option<Seq<char>>);

impl View for Launcher {
    type V = LauncherView;

    open spec fn view(&self) -> LauncherView {
        (self.mode, self.input@, self.selected, opt_view(self.status), opt_view(self.hint))
    }
}

/// The hint for the selected row (the first when none is selected): file
/// results and clipboard entries have one.
pub open spec fn spec_hint(rows: Seq<(Seq<char>, Seq<char>, Seq<char>)>, selected: int) -> Option<Seq<char>> {
    let i = if selected < 0 {
        0
    } else {
        selected
    };
    if i < rows.len() {
        if rows[i].0 == "files"@ {
            Some(FILES_HINT@)
        } else if rows[i].0 == "clipboard"@ {
            Some(CLIPBOARD_HINT@)
        } else {
            None
        }
    } else {
        None
    }
}

/// The selection after a move by `delta` (down when positive) among
/// `count` rows, wrapping at both ends; unchanged when there are no rows.
pub open spec fn moved(selected: int, count: int, delta: int) -> int {
    if count > 0 {
        if delta > 0 {
            if selected >= count - 1 {
                0
            } else {
                selected + 1
            }
        } else if selected <= 0 {
            count - 1
        } else {
            selected - 1
        }
    } else {
        selected
    }
}

/// What a key does on the search panel.
pub enum SearchKey {
    Hide,
    Up,
    Down,
    File(FileAction),
    Digit,
    Ignore,
}

/// The key's meaning on the search panel, the first that applies: Escape
/// hides; Up and Ctrl+P move up, Down and Ctrl+N down; Alt+Enter reveals,
/// Alt+C copies the path, Alt+F the file; another Ctrl key (no Shift) may
/// pick a row by number.
pub open spec fn search_key(k: Key, m: Mods) -> SearchKey {
    match k {
        Key::Escape => SearchKey::Hide,
        Key::ArrowUp => SearchKey::Up,
        Key::ArrowDown => SearchKey::Down,
        Key::Enter => if m.alt {
            SearchKey::File(FileAction::Reveal)
        } else {
            SearchKey::Ignore
        },
        Key::Character(c) => if m.ctrl && c@ == "p"@ {
            SearchKey::Up
        } else if m.ctrl && c@ == "n"@ {
            SearchKey::Down
        } else if m.alt && c@ == "c"@ {
            SearchKey::File(FileAction::CopyPath)
        } else if m.alt && c@ == "f"@ {
            SearchKey::File(FileAction::CopyFile)
        } else if m.ctrl && !m.shift {
            SearchKey::Digit
        } else {
            SearchKey::Ignore
        },
        _ => SearchKey::Ignore,
    }
}

/// The row a number key picks: `1` to `9`, within the rows.
pub open spec fn picked(c: Seq<char>, count: int) -> Option<int> {
    match text::parse_unsigned(c, 0xffff_ffff_ffff_ffff) {
        Some(n) => if 1 <= n <= 9 && n <= count {
            Some(n - 1)
        } else {
            None
        },
        None => None,
    }
}

/// The status after a file action that went well.
pub open spec fn file_done_text(a: FileAction) -> Seq<char> {
    match a {
        FileAction::CopyPath => "Path copied to clipboard"@,
        FileAction::CopyFile => "File copied to clipboard"@,
        FileAction::Reveal => "Opened in Explorer"@,
    }
}

/// Kinds whose activation copies to the clipboard and keeps the window.
pub open spec fn copies(kind: Seq<char>) -> bool {
    kind == "calc"@ || kind == "emoji"@ || kind == "clipboard"@
}

fn hint_for(rows: &Vec<Shown>, selected: i32) -> (h: Option<String>)
    ensures
        opt_view(h) == spec_hint(shown_view(rows@), selected as int),
{
    let i: usize = if selected < 0 {
        0
    } else {
        selected as usize
    };
    if i < rows.len() {
        assert(shown_view(rows@)[i as int].0 == rows@[i as int].provider_id@);
        let p = text::chars_of(rows[i].provider_id.as_str());
        if text::eq_str(&p, "files") {
            Some(FILES_HINT.to_owned())
        } else if text::eq_str(&p, "clipboard") {
            Some(CLIPBOARD_HINT.to_owned())
        } else {
            None
        }
    } else {
        None
    }
}

fn move_selection(selected: i32, count: usize, down: bool) -> (s: i32)
    requires
        count < 0x7fff_ffff,
    ensures
        s == moved(selected as int, count as int, if down { 1 } else { -1 }),
{
    let n = count as i32;
    if n > 0 {
        if down {
            if selected >= n - 1 {
                0
            } else {
                selected + 1
            }
        } else if selected <= 0 {
            n - 1
        } else {
            selected - 1
        }
    } else {
        selected
    }
}

fn pick_row(c: &String, count: usize) -> (r: Option<i32>)
    requires
        count < 0x7fff_ffff,
    ensures
        match picked(c@, count as int) {
            Some(i) => r == Some(i as i32),
            None => r is None,
        },
{
    let v = text::chars_of(c.as_str());
    assert(v@.subrange(0, v@.len() as int) == v@);
    match text::parse_unsigned_exec(&v, 0, v.len(), 0xffff_ffff_ffff_ffff) {
        Some(n) => if 1 <= n && n <= 9 && n <= count as u64 {
            Some((n - 1) as i32)
        } else {
            None
        },
        None => None,
    }
}

fn key_is(c: &String, s: &str) -> (b: bool)
    ensures
        b == (c@ == s@),
{
    text::eq_str(&text::chars_of(c.as_str()), s)
}

fn classify(k: &Key, m: Mods) -> (r: SearchKey)
    ensures
        r == search_key(*k, m),
{
    match k {
        Key::Escape => SearchKey::Hide,
        Key::ArrowUp => SearchKey::Up,
        Key::ArrowDown => SearchKey::Down,
        Key::Enter => if m.alt {
            SearchKey::File(FileAction::Reveal)
        } else {
            SearchKey::Ignore
        },
        Key::Character(c) => if m.ctrl && key_is(c, "p") {
            SearchKey::Up
        } else if m.ctrl && key_is(c, "n") {
            SearchKey::Down
        } else if m.alt && key_is(c, "c") {
            SearchKey::File(FileAction::CopyPath)
        } else if m.alt && key_is(c, "f") {
            SearchKey::File(FileAction::CopyFile)
        } else if m.ctrl && !m.shift {
            SearchKey::Digit
        } else {
            SearchKey::Ignore
        },
        _ => SearchKey::Ignore,
    }
}

impl Launcher {
    /// The window at start: the search panel, an empty input, no row
    /// selected, no status, no hint.
    pub fn new() -> (l: Self)
        ensures
            l@ == (Mode::Search, Seq::<char>::empty(), -1i32, None::<Seq<char>>, None::<Seq<char>>),
    {
        Launcher { mode: Mode::Search, input: String::new(), selected: -1, status: None, hint: None }
    }

    /// The input changed: it is kept, the status clears, and the front end
    /// searches for it.
    pub fn on_input(&mut self, text: String) -> (a: Action)
        ensures
            final(self)@ == (old(self)@.0, text@, old(self)@.2, None::<Seq<char>>, old(self)@.4),
            a matches Action::Search(q) && q@ == text@,
    {
        let q = text.clone();
        self.input = text;
        self.status = None;
        Action::Search(q)
    }

    /// New rows are shown: the first is selected (none when there are
    /// none), the hint follows it, and the list scrolls to it.
    pub fn on_results(&mut self, rows: &Vec<Shown>) -> (a: Action)
        ensures
            final(self).selected == (if rows@.len() > 0 { 0i32 } else { -1i32 }),
            final(self)@ == (
                old(self)@.0,
                old(self)@.1,
                final(self).selected,
                old(self)@.3,
                spec_hint(shown_view(rows@), final(self).selected as int),
            ),
            a matches Action::ScrollTo(i) && i == final(self).selected,
    {
        self.selected = if rows.len() > 0 {
            0
        } else {
            -1
        };
        self.hint = hint_for(rows, self.selected);
        Action::ScrollTo(self.selected)
    }

    /// Back from the settings panel: the search panel with an empty input,
    /// no status and no hint; the front end saves the draft and searches.
    pub fn leave_settings(&mut self) -> (a: Action)
        ensures
            final(self)@ == (Mode::Search, Seq::<char>::empty(), old(self)@.2, None::<Seq<char>>, None::<Seq<char>>),
            a is LeaveSettings,
    {
        self.mode = Mode::Search;
        self.input = String::new();
        self.status = None;
        self.hint = None;
        Action::LeaveSettings
    }

    /// A key press (`url_empty`: the settings draft's search URL is empty).
    /// On the settings panel, Escape, and Backspace with an empty URL,
    /// leave it. On the search panel see `search_key`: Escape clears the
    /// input, status and hint and hides; a move wraps around the rows and
    /// scrolls; a file action applies to the selected (or first) row when
    /// it is a file result; a number picks a row.
    pub fn on_key(&mut self, key: &Key, mods: Mods, rows: &Vec<Shown>, url_empty: bool) -> (a: Action)
        requires
            rows@.len() < 0x7fff_ffff,
        ensures
            old(self).mode == Mode::Settings ==> if key is Escape || (key is Backspace && url_empty) {
                &&& final(self)@ == (Mode::Search, Seq::<char>::empty(), old(self)@.2, None::<Seq<char>>, None::<Seq<char>>)
                &&& a is LeaveSettings
            } else {
                final(self)@ == old(self)@ && a is Nothing
            },
            old(self).mode == Mode::Search ==> match search_key(*key, mods) {
                SearchKey::Hide => {
                    &&& final(self)@ == (Mode::Search, Seq::<char>::empty(), old(self)@.2, None::<Seq<char>>, None::<Seq<char>>)
                    &&& a is Hide
                },
                SearchKey::Up | SearchKey::Down => {
                    let s = moved(old(self).selected as int, rows@.len() as int, if search_key(*key, mods) is Down { 1 } else { -1 });
                    &&& final(self).selected == s
                    &&& final(self)@ == (Mode::Search, old(self)@.1, final(self).selected, old(self)@.3, spec_hint(shown_view(rows@), s))
                    &&& a matches Action::ScrollTo(i) && i == s
                },
                SearchKey::File(f) => {
                    let i = if old(self).selected < 0 { 0 } else { old(self).selected as int };
                    &&& final(self)@ == old(self)@
                    &&& if i < rows@.len() && rows@[i].provider_id@ == "files"@ {
                        a matches Action::RunFileAction(j, g, click) && j == i && g == f && !click
                    } else {
                        a is Nothing
                    }
                },
                SearchKey::Digit => match picked(key->Character_0@, rows@.len() as int) {
                    Some(s) => {
                        &&& final(self).selected == s
                        &&& final(self)@ == (Mode::Search, old(self)@.1, final(self).selected, old(self)@.3, spec_hint(shown_view(rows@), s))
                        &&& a matches Action::ScrollTo(i) && i == s
                    },
                    None => final(self)@ == old(self)@ && a is Nothing,
                },
                SearchKey::Ignore => final(self)@ == old(self)@ && a is Nothing,
            },
    {
        if self.mode == Mode::Settings {
            let leave = match key {
                Key::Escape => true,
                Key::Backspace => url_empty,
                _ => false,
            };
            if leave {
                return self.leave_settings();
            }
            return Action::Nothing;
        }
        match classify(key, mods) {
            SearchKey::Hide => {
                self.input = String::new();
                self.status = None;
                self.hint = None;
                Action::Hide
            },
            SearchKey::Up => {
                self.selected = move_selection(self.selected, rows.len(), false);
                self.hint = hint_for(rows, self.selected);
                Action::ScrollTo(self.selected)
            },
            SearchKey::Down => {
                self.selected = move_selection(self.selected, rows.len(), true);
                self.hint = hint_for(rows, self.selected);
                Action::ScrollTo(self.selected)
            },
            SearchKey::File(f) => {
                let i: usize = if self.selected < 0 {
                    0
                } else {
                    self.selected as usize
                };
                if i < rows.len() && key_is(&rows[i].provider_id, "files") {
                    Action::RunFileAction(i, f, false)
                } else {
                    Action::Nothing
                }
            },
            SearchKey::Digit => {
                let c = match key {
                    Key::Character(c) => c,
                    _ => {
                        return Action::Nothing;
                    },
                };
                match pick_row(c, rows.len()) {
                    Some(s) => {
                        self.selected = s;
                        self.hint = hint_for(rows, s);
                        Action::ScrollTo(s)
                    },
                    None => Action::Nothing,
                }
            },
            SearchKey::Ignore => Action::Nothing,
        }
    }

    /// A row is chosen (clicked, or Enter on the selection): a settings
    /// row opens the settings panel (no status, no hint); any other row is
    /// to be performed; an index past the rows does nothing.
    pub fn activate(&mut self, index: usize, rows: &Vec<Shown>) -> (a: Action)
        ensures
            index >= rows@.len() ==> final(self)@ == old(self)@ && a is Nothing,
            index < rows@.len() && rows@[index as int].kind@ == "settings"@ ==> {
                &&& final(self)@ == (Mode::Settings, old(self)@.1, old(self)@.2, None::<Seq<char>>, None::<Seq<char>>)
                &&& a is OpenSettings
            },
            index < rows@.len() && rows@[index as int].kind@ != "settings"@ ==> {
                &&& final(self)@ == old(self)@
                &&& a matches Action::Activate(i) && i == index
            },
    {
        if index >= rows.len() {
            return Action::Nothing;
        }
        if key_is(&rows[index].kind, "settings") {
            self.mode = Mode::Settings;
            self.status = None;
            self.hint = None;
            Action::OpenSettings
        } else {
            Action::Activate(index)
        }
    }

    /// Enter: on the search panel with a row selected, that row is chosen
    /// (see `activate`); otherwise nothing.
    pub fn on_submit(&mut self, rows: &Vec<Shown>) -> (a: Action)
        ensures
            old(self).mode == Mode::Search && old(self).selected >= 0 ==> ({
                let index = old(self).selected as int;
                &&& index >= rows@.len() ==> final(self)@ == old(self)@ && a is Nothing
                &&& index < rows@.len() && rows@[index].kind@ == "settings"@ ==> {
                    &&& final(self)@ == (Mode::Settings, old(self)@.1, old(self)@.2, None::<Seq<char>>, None::<Seq<char>>)
                    &&& a is OpenSettings
                }
                &&& index < rows@.len() && rows@[index].kind@ != "settings"@ ==> {
                    &&& final(self)@ == old(self)@
                    &&& a matches Action::Activate(i) && i == index
                }
            }),
            !(old(self).mode == Mode::Search && old(self).selected >= 0) ==> final(self)@ == old(self)@ && a is Nothing,
    {
        if self.mode == Mode::Search && self.selected >= 0 {
            let index = self.selected as usize;
            self.activate(index, rows)
        } else {
            Action::Nothing
        }
    }

    /// The outcome of performing `row`: a copy (calculator, emoji,
    /// clipboard) says so and keeps the window; any other success hides
    /// it; a failure says which row could not be opened. The hint clears
    /// unless the window hides.
    pub fn on_activated(&mut self, row: &Shown, outcome: &Result<(), String>) -> (a: Action)
        ensures
            outcome is Ok && copies(row.kind@) ==> {
                &&& final(self)@ == (old(self)@.0, old(self)@.1, old(self)@.2, Some("Copied to clipboard"@), None::<Seq<char>>)
                &&& a is Nothing
            },
            outcome is Ok && !copies(row.kind@) ==> final(self)@ == old(self)@ && a is Hide,
            outcome is Err ==> {
                &&& final(self)@ == (old(self)@.0, old(self)@.1, old(self)@.2, Some("Could not open "@ + row.title@), None::<Seq<char>>)
                &&& a is Nothing
            },
    {
        match outcome {
            Ok(()) => {
                let k = text::chars_of(row.kind.as_str());
                if text::eq_str(&k, "calc") || text::eq_str(&k, "emoji") || text::eq_str(&k, "clipboard") {
                    self.status = Some("Copied to clipboard".to_owned());
                    self.hint = None;
                    Action::Nothing
                } else {
                    Action::Hide
                }
            },
            Err(_) => {
                self.status = Some(text::concat("Could not open ", row.title.as_str()));
                self.hint = None;
                Action::Nothing
            },
        }
    }

    /// A right-click: a clipboard entry is to be pinned or unpinned, a
    /// file result has its path copied; other rows, and an index past the
    /// rows, do nothing.
    pub fn on_right_click(&self, index: usize, rows: &Vec<Shown>) -> (a: Action)
        ensures
            index < rows@.len() && rows@[index as int].provider_id@ == "clipboard"@ ==> (a matches Action::Pin(i) && i == index),
            index < rows@.len() && rows@[index as int].provider_id@ == "files"@ ==> (a matches Action::RunFileAction(i, f, click)
                && i == index && f == FileAction::CopyPath && click),
            !(index < rows@.len() && (rows@[index as int].provider_id@ == "clipboard"@ || rows@[index as int].provider_id@ == "files"@)) ==> a is Nothing,
    {
        if index >= rows.len() {
            return Action::Nothing;
        }
        proof {
            reveal_strlit("files");
            reveal_strlit("clipboard");
            assert("files"@.len() != "clipboard"@.len());
        }
        if key_is(&rows[index].provider_id, "clipboard") {
            Action::Pin(index)
        } else if key_is(&rows[index].provider_id, "files") {
            Action::RunFileAction(index, FileAction::CopyPath, true)
        } else {
            Action::Nothing
        }
    }

    /// The outcome of a file action: the status says what was done, or
    /// `Could not: ` and the error; after a right-click the hint clears.
    pub fn on_file_action_done(&mut self, action: FileAction, outcome: &Result<(), String>, from_click: bool)
        ensures
            final(self).mode == old(self).mode,
            final(self).input@ == old(self).input@,
            final(self).selected == old(self).selected,
            opt_view(final(self).status) == Some(match outcome {
                Ok(()) => file_done_text(action),
                Err(e) => "Could not: "@ + e@,
            }),
            opt_view(final(self).hint) == if from_click { None } else { opt_view(old(self).hint) },
    {
        match outcome {
            Ok(()) => {
                let t = match action {
                    FileAction::CopyPath => "Path copied to clipboard",
                    FileAction::CopyFile => "File copied to clipboard",
                    FileAction::Reveal => "Opened in Explorer",
                };
                self.status = Some(t.to_owned());
            },
            Err(e) => {
                self.status = Some(text::concat("Could not: ", e.as_str()));
            },
        }
        if from_click {
            self.hint = None;
        }
    }

    /// The outcome of toggling a pin: the status says which way it went,
    /// the hint clears, and the front end searches again for the input.
    pub fn on_pinned(&mut self, pinned: bool) -> (a: Action)
        ensures
            final(self)@ == (
                old(self)@.0,
                old(self)@.1,
                old(self)@.2,
                Some(if pinned { "Pinned — stays in history"@ } else { "Unpinned"@ }),
                None::<Seq<char>>,
            ),
            a matches Action::Search(q) && q@ == old(self).input@,
    {
        self.status = Some(
            if pinned {
                "Pinned — stays in history".to_owned()
            } else {
                "Unpinned".to_owned()
            },
        );
        self.hint = None;
        Action::Search(self.input.clone())
    }

    /// The hotkey brought the window up: the input, status and hint clear
    /// and the front end searches for the empty input.
    pub fn on_hotkey(&mut self) -> (a: Action)
        ensures
            final(self)@ == (old(self)@.0, Seq::<char>::empty(), old(self)@.2, None::<Seq<char>>, None::<Seq<char>>),
            a matches Action::Search(q) && q@ == Seq::<char>::empty(),
    {
        self.input = String::new();
        self.status = None;
        self.hint = None;
        Action::Search(String::new())
    }
}

impl Launcher {
    /// A periodic tick: when the engine's results changed since the rows
    /// shown were searched (`revision` differs from `seen`), the front end
    /// searches again for the input; otherwise nothing.
    pub fn on_tick(&self, revision: u64, seen: u64) -> (a: Action)
        ensures
            revision != seen ==> (a matches Action::Search(q) && q@ == self.input@),
            revision == seen ==> a is Nothing,
    {
        if revision != seen {
            Action::Search(self.input.clone())
        } else {
            Action::Nothing
        }
    }
}

/// The settings panel's draft: search URL, accent, starting with the
/// system, and the file index's depth and entry cap. (The window width, a
/// fractional value, stays with the front end.)
pub struct SettingsDraft {
    pub search_url: String,
    pub accent: String,
    pub autostart: bool,
    pub file_index_depth: usize,
    pub file_index_entries: usize,
}

/// The draft as values.
pub type DraftView = (Seq<char>, Seq<char>, bool, usize, usize);

impl View for SettingsDraft {
    type V = DraftView;

    open spec fn view(&self) -> DraftView {
        (self.search_url@, self.accent@, self.autostart, self.file_index_depth, self.file_index_entries)
    }
}

impl SettingsDraft {
    /// The search URL field changed.
    pub fn on_search_url(&mut self, url: String)
        ensures
            final(self)@ == (url@, old(self)@.1, old(self)@.2, old(self)@.3, old(self)@.4),
    {
        self.search_url = url;
    }

    /// An accent was picked: the draft keeps the text, and the accent in use
    /// becomes the colour it names (unchanged when it names none).
    pub fn on_accent(&mut self, hex: String, accent: &mut (u8, u8, u8))
        ensures
            final(self)@ == (old(self)@.0, hex@, old(self)@.2, old(self)@.3, old(self)@.4),
            match theme::spec_parse_accent(hex@) {
                Some(c) => *final(accent) == c,
                None => *final(accent) == *old(accent),
            },
    {
        theme::apply_config_accent(accent, hex.as_str());
        self.accent = hex;
    }

    /// Starting with the system was switched: the draft keeps it, and the
    /// front end applies it.
    pub fn on_autostart(&mut self, enabled: bool) -> (a: Action)
        ensures
            final(self)@ == (old(self)@.0, old(self)@.1, enabled, old(self)@.3, old(self)@.4),
            a matches Action::SetAutostart(b) && b == enabled,
    {
        self.autostart = enabled;
        Action::SetAutostart(enabled)
    }

    /// The index depth slider moved: the files are re-indexed with the
    /// draft's limits.
    pub fn on_file_depth(&mut self, depth: usize) -> (a: Action)
        ensures
            final(self)@ == (old(self)@.0, old(self)@.1, old(self)@.2, depth, old(self)@.4),
            a matches Action::ApplyFileLimits(d, e) && d == depth && e == old(self).file_index_entries,
    {
        self.file_index_depth = depth;
        Action::ApplyFileLimits(depth, self.file_index_entries)
    }

    /// The entry cap slider moved: the files are re-indexed with the
    /// draft's limits.
    pub fn on_file_entries(&mut self, entries: usize) -> (a: Action)
        ensures
            final(self)@ == (old(self)@.0, old(self)@.1, old(self)@.2, old(self)@.3, entries),
            a matches Action::ApplyFileLimits(d, e) && d == old(self).file_index_depth && e == entries,
    {
        self.file_index_entries = entries;
        Action::ApplyFileLimits(self.file_index_depth, entries)
    }

    /// Back to the defaults: the draft becomes `defaults`, the accent in
    /// use becomes the default's colour (unchanged when it names none), and
    /// the front end applies starting with the system and the file limits,
    /// in that order.
    pub fn reset(&mut self, defaults: SettingsDraft, accent: &mut (u8, u8, u8)) -> (a: Vec<Action>)
        ensures
            final(self)@ == defaults@,
            match theme::spec_parse_accent(defaults.accent@) {
                Some(c) => *final(accent) == c,
                None => *final(accent) == *old(accent),
            },
            a@.len() == 2,
            a@[0] matches Action::SetAutostart(b) && b == defaults.autostart,
            a@[1] matches Action::ApplyFileLimits(d, e) && d == defaults.file_index_depth && e
                == defaults.file_index_entries,
    {
        theme::apply_config_accent(accent, defaults.accent.as_str());
        *self = defaults;
        let mut a: Vec<Action> = Vec::new();
        a.push(Action::SetAutostart(self.autostart));
        a.push(Action::ApplyFileLimits(self.file_index_depth, self.file_index_entries));
        a
    }
}

/// Among rows, a move keeps the selection on a row.
pub proof fn lemma_move_stays_on_a_row(selected: int, count: int, delta: int)
    requires
        0 <= selected < count,
    ensures
        0 <= moved(selected, count, delta) < count,
{
}

/// Moving down and then up (or up and then down) comes back to the same
/// row, across the wrap-around too.
pub proof fn lemma_down_then_up(selected: int, count: int)
    requires
        0 <= selected < count,
    ensures
        moved(moved(selected, count, 1), count, -1) == selected,
        moved(moved(selected, count, -1), count, 1) == selected,
{
}

} // verus!
