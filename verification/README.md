# element

The logic of a keyboard launcher (a floating search bar: apps, files,
calculator, emoji, clipboard history, colours, units, snippets, web search,
system commands, a small text editor), written in Verus: every function in
`src/` carries a `requires`/`ensures` contract that Verus proves.

## Layout

- `src/text.rs` — character and byte helpers with their specifications
  (trimming, ASCII case, search, decimal text, UTF-8 lengths).
- `src/editor/` — the text buffer (a UTF-8 string with a cursor kept on a
  character boundary, line and column derived from the offset) and the
  find state (wrap-around search).
- `src/hotkey.rs`, `src/config.rs` — the global hotkey's state machine and
  the parsing of hotkey strings with their fallbacks.
- `src/providers/` — one module per search provider: how a query is
  recognised, which rows it yields and how they score.
- `src/platform.rs`, `src/shortcut.rs` — clipboard bitmap (DIB) decoding
  and encoding, password alphabet, `.lnk` string parsing.
- `src/ui.rs` — the launcher window's decisions: what a key, a click or
  an outcome does to the window state (selection, status, hint, panel)
  and which action the front end performs next.
- `src/module.rs`, `src/theme.rs`, `src/error.rs`, `src/actions.rs` —
  the module registry, the accent colour, the error type, small enums.
- `app/` — a command-line front end (one-shot queries, or an interactive
  session that drives `src/ui.rs`): configuration and SQLite storage,
  directory scans, clipboard and browser access, and the floating-point
  parts of ranking (fuzzy score, favourites boost, HSL, unit factors).
- `tests/` — tests of the library on concrete values.

Laws that span several calls are public proof functions (`lemma_*`), for
instance that a decoded clipboard bitmap encodes back to the same pixels,
that sorting snippets keeps every entry and puts them in name order, and
that a registered module is found again under its command.
