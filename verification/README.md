# otdr_viewer

The core of a viewer for fiber-optic reflectometry results (`.sor` files,
Telcordia SR-4731), written in Rust and proved correct with Verus.

`src/` is the verified library:

- `model` – the records handed to callers (folder entries, listings, quick
  locations, recent-file lines).
- `listing`, `paths`, `size` – which folder entries are shown, their order,
  size labels, path handling and the quick locations.
- `trace` – downsampling of a trace for display (minimum and maximum of each
  bucket), with its laws.
- `recent`, `recent_panel` – the recent-files table (one row per path, listed
  newest first) and the side panel that shows it.
- `dialog`, `dropzone`, `window`, `toolbar`, `title_bar`, `home` – the
  open-file dialog, the drop zone, the window buttons, the trace toolbar, the
  title bar and the main page's layout as state machines: each event gives the
  next state and the work the caller has to do.
- `events` – the events table's row order (stable by distance) and row labels.
- `labels`, `text`, `filter`, `clock`, `calendar` – labels, search filtering,
  command error messages, and the local `dd.mm.yyyy` date of a time stamp.

`app/` is a command-line front end: it reads folders and the clock, keeps the
recent-files table in a JSON file, and holds the floating-point chart math.

`tests/` runs the library on concrete values.
