# hodoq

The task-list logic of HodoQ, a local personal task manager, written in Verus
with its behaviour stated as `requires` / `ensures` contracts and proved.

## Layout

- `src/` – the verified library.
  - `calendar`, `due`, `roundtrip`: civil dates, instants, UTC offsets, and the
    due-date input grammar (`YYYY-MM-DD`, `YYYY-MM-DD HH:MM`) with its display
    forms; the input text of a due reads back as the same due.
  - `text`, `ids`: text helpers and UUID-based identifiers.
  - `task`, `query`, `ordering`, `sorting`: tasks, filters, the comparator of
    the sort keys and the sorts built on it.
  - `views`, `filters`, `startup`, `listing`, `layouts`: smart and saved views,
    the filter panel, what is shown at start-up, and the list, board, calendar
    and palette layouts.
  - `selection`, `editing`, `history`, `catalog`: selection rules, task edits,
    undo / redo of recorded changes to tasks, projects and tags.
  - `backups`, `closing`: backup file names and rotation, and the close protocol.
- `tests/` – tests that run the library on concrete values.
- `app/` – a small command-line program around the library (backup listing and
  rotation in a directory).

The `time` crate supplies calendar arithmetic, local offsets and the clock;
`uuid` supplies identifiers: tasks, projects, tags and saved views are identified
by random version-4 UUIDs, and a saved view is stored in the settings as
`saved:` followed by its identifier in the hyphenated form, which is read back
with `uuid`'s parser. Each call into them goes through a trusted wrapper
whose contract states what the crate documents.
