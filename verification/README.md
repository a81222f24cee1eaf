# wit — verified core

`wit` is a version-controlled weather journal: it tracks cities, commits
weather snapshots to a git repository, diffs places and seasons, and charts
history in the terminal.

This crate holds the logic of `wit` as a library verified with Verus:

- `src/query.rs` — the shorthand query language (`wit tokyo 7d`,
  `wit tokyo..boston`, `wit tokyo jan..jul`), time tokens, and how time
  specifications resolve to dates.
- `src/text.rs` — whitespace tokenizing, joining and searching on characters.
- `src/date.rs` — calendar dates and the chrono date arithmetic they use.
- `src/config.rs` — tracked locations, slugs and snapshot paths.
- `src/journal.rs` — commit messages, dashboard and log selection, backfill windows.
- `src/chart.rs` — chart planning: locations, history depth, which series to draw, widths.
- `src/history.rs` — which commits a history walk reports, and the commit a walk to a date stops at.
- `src/canvas.rs` — the braille overlay canvas (a `HashMap` of cells) with Bresenham lines.
- `src/display.rs` — unit labels, compass directions, weather codes, place names.
- `src/cli.rs`, `src/error.rs` — invocations and errors.

`app/` is the program around it: command-line parsing, files, git, HTTP,
floating-point weather values and terminal output.
