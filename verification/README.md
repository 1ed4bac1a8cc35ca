# sticky_notes

The verified core of a Windows desktop sticky-notes application with WebDAV
synchronisation, written in Verus.

- `src/` — the library. Every function has a contract proved by Verus, except
  two small trusted wrappers whose contracts are believed: `text::push_char`
  (`String::push`) and `tray_icon::decode_rgba` (the `image` crate's decoder).
  Modules:
  - `db.rs`: the note record, which stored notes are listed, due for a
    reminder or purged, and how a stored sync conflict is resolved;
  - `sync.rs`: the last-writer-wins merge of local and remote notes, with its
    laws, and the handling of WebDAV status codes;
  - `sync_cmd.rs`: the synchronisation engine (remote locations and the
    full-sync / push / pull state machine);
  - `commands.rs`: UTC date rendering, CSV escaping and CSV export;
  - `win32.rs`: window-message decisions (Win+D guard, click-through hit test);
  - `tray_icon.rs`: decoding of the tray icon through the `image` crate;
  - `text.rs`: string order, decimal rendering and string builders.
- `tests/` — tests run against the compiled library.
- `app/` — the desktop program: Tauri commands, SQLite storage, HTTP, settings
  file, Win32 calls. It performs the I/O and asks the library for decisions.
