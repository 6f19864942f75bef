# zach_tools

A clipboard-history launcher for the desktop: a global shortcut opens a panel
that lists what was copied (texts and images), searches it, and pastes an
entry back into the application that had focus.

- `src/` is the library, verified with Verus: the history table and its
  queries (`clipboard_store`, with the list order and top-k selection in
  `selection` and the table's laws in `history_laws`), the image pipeline's
  pure parts (`image_store`: pixel hash, file layout, size check, thumbnail
  geometry, PNG encoding and decoding), the ingest decisions
  (`clipboard_ingest`), the shared state and its self-write mark (`state`),
  the front end's commands (`commands`), the launcher's open/close and
  tray-menu decisions (`launcher`), and the clipboard monitor's read, retry
  and debounce decisions (`platform`).
- `tests/` exercises the library.
- `app/` is the desktop program around it: the window system, the tray, the
  clipboard and file I/O, the Win32 hooks, and the SQLite file that the
  history table is written through to.
