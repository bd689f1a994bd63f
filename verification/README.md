# clypse

A clipboard history manager for Linux, as a verified library and a daemon.

- `src/` — the library, verified with Verus:
  - `db` — the history store: one entry per payload hash, listing order
    (pinned first, then most recently used), trimming that spares favorites and
    pinned entries, settings; `now_ms`.
  - `capture` — what the clipboard monitors report (offer tracking, dedup by
    hash, the debounce window) and how a payload is classified (image
    switch and size limit) and stored (history limit, clearing by age).
  - `mime`, `hash`, `text` — MIME rules, content hashes, string helpers.
  - `protocol` — the daemon's requests, answers and events, and how a request
    is answered from the store.
  - `client`, `view`, `applet`, `tray` — the window's and the panel applet's side:
    request lines, reading the daemon's messages, list state, row text.
  - `config`, `service` — settings, file locations, systemd notifications.
- `app/` — the daemon program: SQLite persistence, the Wayland and X11
  monitors, the Unix-socket server, the settings file, and the IPC clients of
  the window and the applet.
- `tests/` — tests of the library.
