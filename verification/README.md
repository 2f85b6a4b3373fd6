# focus

Focus keeps tasks, daily plans and a waiting-on ledger in the Markdown
notes of an Obsidian vault, using Obsidian Tasks checkbox syntax
(`- [ ] text 📅 YYYY-MM-DD 🆔 id #project/name #waiting`).

The library under `src/` is verified with Verus: each public function
states in its contract what it returns, over spec functions on sequences
of characters, and the laws of the library are proved as proof functions.
The command-line program under `app/` reads and writes the files, parses
arguments, draws the terminal screen and sends macOS notifications; what
it reads and writes is computed by the library.

## Layout of `src/`

- `text`, `paths`, `date`: characters and lines, Unix path text, calendar
  dates (chrono does the calendar arithmetic behind three small wrappers).
- `task`: the task-line grammar, capture lines, IDs and single-line edits.
- `vault`: generated sections, scanning a note's source tasks, editing one
  line of a note, finding a task by ID, ID backfill.
- `groups`, `planner`, `projects`, `waiting`, `notifications`, `review`:
  the views built from scanned tasks.
- `tui`: the command center's state and what each key does.
- `config`: the vault layout.
- `task_laws`, `section_laws`, `edit_laws`, `scan_laws`, `capture_laws`,
  `tag_laws`, `plan_laws`: the laws (completion marks a task done and is
  idempotent, a section replacement touches only the section and the last
  one wins, capture lands inside the inbox and reads back with its ID,
  dates, tags, priority, project, person and waiting flag, an edit changes
  only its line, scanning reads exactly the source lines, backfill keeps
  existing IDs and a second backfill adds none, every bucket, group and
  reminder holds open tasks of the scan, and the ledger counts what the
  review counts).
