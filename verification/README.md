# taskmd-core

Core logic of a markdown-native task manager. A task is one markdown file
whose name, `DDNNN-pX-status--slug.md`, is the single source of truth for its
id, priority, status and slug.

## Layout

- `src/` — the library, verified with Verus. Every decision lives here: the
  filename grammar and its round trip, slug derivation, id parsing and
  allocation (prefix buckets, overflow into the following buckets, freshness
  against every name already seen), task listing and lookup, validation,
  the rename plan of `fix` and the bookkeeping of its outcomes, the
  duplicate tiebreaker, tasks-directory discovery, and the checks of a create
  request.
- `app/` — plain Rust around the library: reading directories and files,
  running `git` and walking history with `gix`, and performing the renames
  and writes the library asks for.
- `tests/` — tests of the library on concrete values.

The library never touches the filesystem: callers hand it directory listings,
file contents and command output, and it returns values and plans.
