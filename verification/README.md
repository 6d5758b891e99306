# laico_boot

A three-column terminal launcher (directory / applications / preview) whose
logic is a library verified with Verus.

- `src/` — the verified library:
  - `texto`: lines, whitespace, replacement, trimming, words and
    lexicographic order over character sequences;
  - `numero`: reading and writing decimal `u32` values;
  - `ordem`: stable sorting by (usage, text, number) keys;
  - `aplicativo`: launcher entries, `.desktop` parsing, catalogue orders;
  - `busca`: the subsequence search of the central column and its scoring;
  - `historico`: loading, counting and saving the usage history;
  - `diretorio`: labels of directory entries and back to names;
  - `comando`: how commands run and what opening a file does;
  - `navegacao`: the keyboard state machine of the three columns.
- `tests/` — tests of the library on concrete values.
- `app/main.rs` — the terminal program (ratatui/crossterm drawing, disk and
  process I/O through `libc`), which calls the library for every decision.
