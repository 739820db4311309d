# yfiles

A visual file manager for libyggterm hosts (Dolphin/Explorer ergonomics over a
terminal session), with its decision-making core verified by Verus.

## Layout

- `src/` — the verified library (`yfiles`):
  - `text` — character-sequence helpers (trim, words, split, decimal/octal, search).
  - `paths` — Unix path algebra with `std::path` meaning: components, equality,
    join, parent, file name, extension, and the path order.
  - `fs_engine` — sort keywords, listing entries built from raw metadata, icons,
    image detection, inspection records.
  - `listing` — the listing order: hidden filter, directories first, stable sort.
  - `mounts` — mount points read from the text of `/proc/mounts`.
  - `state` — the navigation state and its transitions (tabs, recent, viewer,
    rename/trash bookkeeping, breadcrumbs, session restore).
  - `server` — decoding of control-channel actions into state changes and
    effects; request-line and header reading.
  - `schema` — the widget documents of the viewport and the two sidebar panes.
  - `control`, `manifest`, `osc` — client-side helpers, the launcher manifest and
    the OSC 7717 framing.
- `app/` — the executable: CLI, daemon sockets, disk access, JSON, trash.
- `tests/` — behaviour tests of the library.
