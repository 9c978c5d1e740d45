# mpv_tidy

An anime subtitle organizer: it reads episode numbers from video and subtitle
file names, matches each episode's video with its preferred subtitles, plans
copying or moving them into a tidy project folder with a JSON map, keeps a
local library of organized projects with watch progress, and drives the mpv
player with the chosen subtitles.

The library under `src/` is written in Verus: every function states its
behaviour in `requires`/`ensures` clauses over mathematical models (`Seq`,
views of the data types) and is proved against them. Calls into `regex`,
`unicode-normalization` and a few std functions go through small trusted
wrappers whose contracts name what the outside code returns.

- `text`, `path` — characters, strings and file-system paths as sequences.
- `tokens`, `slots`, `rules`, `template`, `parser` — episode parsing: the
  single-file rules, the per-series template inferred from a batch of files,
  and the decision between candidates.
- `natural`, `sort` — natural ordering of names and verified stable sorting.
- `scanner`, `matcher` — scan results and the episode match table.
- `organizer` — organize plans, safe file names, collision renaming and the
  progress of an execution.
- `library`, `settings` — the local library file and application settings.
- `crf` — the token features a slot model scores and the model checks.
- `mpv` — reading the player's track list and what to send it.
- `laws` — properties that span several functions, proved once.

`app/` is the desktop application around the library (window commands, disk
and process I/O, JSON files, the floating-point slot model); `tests/` runs the
library on concrete cases.
