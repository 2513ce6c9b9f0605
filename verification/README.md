# powder

`pwd` but better: the current directory in colour themes, a history of the
last ten directories, and reports on the directory and its git repository.

## Layout

- `src/` — the verified library (Verus).
  - `history.rs` — the bounded, duplicate-free history of visited
    directories, where it is stored, and its laws (a visit puts the directory
    first, keeps it once, respects the bound; visiting twice is visiting once).
  - `themes.rs` — the five built-in themes, choosing one, and painting text in
    a palette colour through the `colored` crate.
  - `lines.rs` — lines as coloured spans, their painting, and word wrapping
    to the terminal width, with the laws of plain output and wrapping.
  - `reports.rs` — what each report shows (themes, history, directory,
    repository, the path itself, errors), the law of path display, and the
    search for the enclosing git repository, which probes at most
    `GIT_SEARCH_DEPTH` directories.
  - `output.rs` — the output manager: current theme, terminal width and
    compact mode, producing every report as the lines to print.
  - `paths.rs` — joining paths and splitting them into components.
  - `cwd.rs` — deciding which directory is current (`-L`, `-P`).
  - `text.rs` — string building blocks: whitespace, words, numbers.
  - `clock.rs` — the system clock.
- `tests/` — tests of the library.
- `app/` — the command-line program: argument parsing, reading the
  environment, the file system and git, saving the history file, printing.
