# worldcup_odds

The core of a World Cup odds desk, verified with Verus: reading final
results, matching team names across Chinese and English feeds, settling
predictions and recommendations against 90-minute scores, choosing and
auditing pre-match snapshots, and reading the lottery and bookmaker feeds.

## Layout

- `src/` — the verified library. Each public function states what it
  returns in its `ensures`, over the specification functions next to it.
  - `text`, `numbers` — character-level text operations and decimal numbers.
  - `teams` — name normalisation, canonical names, aliases, ranks, matching.
  - `settlement` — scores and the settlement of a pick.
  - `line` — handicap lines as a float parser reads them, kept exactly.
  - `results` — the results page, HTML stripping, and the results CSV.
  - `markets`, `fixtures` — classifiers and keys over markets, picks and rows.
  - `snapshot` — times, SQL, CSV cells and documents, and the snapshot each
    fixture uses.
  - `audit` — the pre-match snapshot audit.
  - `autosettle` — planning the settlement of stored predictions.
  - `feeds`, `odds` — the JSON feeds: fixtures, results, markets, prices.
  - `players` — player-status entries of a team.
  - `upset_lab` — the upset lab's listing, per-pool caps, settings, guard and
    scan tallies.
  - `health`, `training` — the startup health report and the training paths.
  - `laws` — properties that span several functions, proved once.
- `tests/` — tests of the library on concrete values.
- `app/` — a command-line program around the library: the SQLite store,
  HTTP, files, backups, and the floating-point pricing.

The outside crates that the library calls (`csv`, `chrono`, and parts of
`std`) sit behind small wrappers whose contracts are stated next to them.
