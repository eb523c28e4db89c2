# znote

A command-line manager for notes, bookmarks and tasks kept as Markdown files
with a YAML frontmatter (`znote: <type>/v1/<id>`), with wiki links and
embeds, a boolean search language, lifecycle hooks, a link graph, a small
web API and an optional dolt (SQL) storage backend.

## Layout

- `src/` — the verified library (Verus). Every function carries a contract
  and the laws of the library are proof functions next to the code they
  speak of:
  - `text`, `lists`, `order` — string, list and ordering helpers with their
    mathematical models;
  - `models` — notes, bookmarks, tasks, time stamps;
  - `storage`, `records` — file format: frontmatter splitting, id
    resolution, reading and writing entities, checklists;
  - `query` — the search expression lexer, parser and set semantics;
  - `wiki` — wiki links, sections, embeds and terminal rendering;
  - `graph` — the entity graph, its filters and its text, DOT and Mermaid
    forms;
  - `edit`, `validate`, `hooks`, `web`, `sql` — updates and checklist edits,
    frontmatter validation, hook environment and outcome, API decisions,
    the dolt statements;
  - `commands` — the command line as values.
- `app/` — the program around the library: argument parsing, the file
  system, YAML and JSON, ripgrep, hook processes, the dolt connection, the
  HTTP server and terminal output.
- `tests/` — tests of the library on concrete values.
