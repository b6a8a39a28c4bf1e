# fijit

A declarative web scraper framework: a scraper is a TOML pipeline of steps
that fetch a page through the Obscura headless browser, narrow down the
extracted elements and emit Slack alerts. This crate is its core, verified
with Verus, plus a thin command-line program around it.

## Layout

- `src/` — the library, verified with Verus; its few calls into `regex`,
  `serde_json` and `toml_edit` go through small trusted wrappers whose
  contracts are stated where they are declared:
  - `pipeline`, `stages`, `alerts`: what each step does to the element list,
    the variables, the alerts and the persisted alert state; pages to load
    are returned to the caller rather than fetched here.
  - `template`, `number`, `ops`, `urls`, `records`, `lines`, `text`,
    `str_map`, `element`, `step`: templates, number reading, comparison
    operators, link resolution, extracted records and the text helpers
    they rest on.
  - `state_file`: the `[state]` table kept in the scraper's own file
    (through `toml_edit`); `pattern`: regular expressions (through `regex`).
  - `cli`, `config`, `obscura`: the decisions behind the command line —
    choosing the Obscura binary, locating the configuration, the `list`
    rows and the crontab edits.
  - `fijjit`, `fijit_cli`, `bike_discount`: the earlier `fijjit` flavour of
    the framework and its hand-written bike-discount scraper.
  - Public `law_*` proof functions state what holds across calls (for
    example, that a repeated reading does not alert twice, or that sorting
    by text gives the same `map` whatever order the page listed things in).
- `app/` — the programs `fijit` (and `fijjit` when invoked under that name):
  argument parsing, files, the crontab, running Obscura and posting to Slack.
- `tests/` — tests of the library.
