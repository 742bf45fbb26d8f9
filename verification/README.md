# stui

A terminal launcher for locally installed Steam games, whose core is a
formally verified library.

- `src/` — the verified library:
  - `model.rs`: games and the saved state;
  - `text.rs`: name order, substring search, decimal parsing, case folding;
  - `order.rs`: sorting indices by name (stable), with uniqueness and existence
    of the sorted arrangement;
  - `app.rs`: the launcher's state machine — the listed games, navigation,
    hiding, favorites, search and the key bindings — each transition stated
    as a function of the state together with the effects it asks for;
  - `playtimes.rs`: the play-time table;
  - `vdf.rs`: reading Steam's `localconfig.vdf` and `appmanifest_*.acf` with
    the `regex` crate;
  - `library.rs`: merging a scan into the library, refreshing play times,
    sorting, and the configuration file paths;
  - `layout.rs`: the second header line, which rows of the list fit on
    screen, and the text of an empty list.
- `app/` — the program: command line, terminal, drawing, files and processes;
  it performs the effects that the library's transitions return.
- `tests/` — tests of the library.
