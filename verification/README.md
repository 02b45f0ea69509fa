# phpick

Per-project PHP version routing for `composer` and `php`: a project pins its PHP
version in `composer.json` (`config.platform.php`), and the `php`/`composer` shims
run the matching installed PHP.

Layout:

- `src/` — the library, verified with Verus. Each public function states in its
  contract what it returns; the laws of the library are proof functions beside it.
  - `version.rs`: pinned versions (`major.minor`), numeric keys, release comparison.
  - `calendar.rs`: days since 1970 to proleptic Gregorian dates, the daily stamp.
  - `discover.rs`: the search order for PHP binaries on `PATH` and in installers'
    locations, the run of that plan (the first step that finds a binary wins),
    the choice of the highest installed patch release, and the listing of every
    version whose name shows up in those places.
  - `project.rs`, `update.rs`, `json.rs`: reading `composer.json` and release
    documents (parsed by `serde_json`), update decisions, the daily-check gate.
  - `windows_setup.rs`: the user `PATH` edit made when shims are installed.
  - `cli.rs`, `http.rs`: command-line decisions, the fetch fallback and its arguments.
  - `text.rs`, `decimal.rs`: character sequences and decimal numerals.
- `app/` — the program: file system, environment, processes, registry.
- `tests/` — tests of the library.
