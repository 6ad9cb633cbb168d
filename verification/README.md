# ping_uin

A btop-style terminal monitor for hosts: per-host ping or TCP checks on their
own intervals, a rolling history strip, grouping, sorting, search, CSV
import/export, uptime history and self-update.

## Layout

- `src/` — the verified library (Verus). Each module states its behaviour in
  `requires`/`ensures` contracts over mathematical models:
  - `text`, `order` — characters, trimming, decimal numbers, string order.
  - `json`, `records` — what the program reads from JSON documents and CSV
    files, as `serde_json` and `csv` give it.
  - `config` — intervals (`30s`/`5m`/`2h`), host entries, sort modes, the
    config's older JSON layout (read from its text), and reading and writing
    `hosts.csv`.
  - `hoststate` — live host state, flapping, the history strip, the add/edit form.
  - `registry` — the host list (add, edit, remove, import, results, and
    seeding the counters from the uptime log's bytes).
  - `view` — which hosts are listed, in what order, under which headers.
  - `footer` — packing the key hints into the fixed two-row menu, with a
    `+N more [M]` marker counting whatever does not fit.
  - `keys` — the whole key map as a state machine: `Ui::handle_key`.
  - `session` — start-up state, check results, release news and update progress.
  - `net` — check schedules, the worker's next step, reading `ping` output.
  - `release` — the latest-release document: its version, the asset to
    download and the checksum to verify it against.
  - `history`, `update`, `once`, `cli`, `theme` — a host's log entries and
    history tallies, release versions and checksums, the `--once` report,
    the command line, the built-in themes and their colors.
- `app/` — the program around it: terminal drawing (ratatui/crossterm), files,
  network, threads, and the installers.
- `tests/` — tests of the library.
