# localdrop

The core of a peer-to-peer file transfer tool for the local network, verified with Verus.

- `src/` — the library: message framing (`protocol`), how files are cut into chunks and
  rebuilt (`file`), the sending and receiving sides of a transfer session as state machines
  (`transfer`), the device registry fed by broadcast announcements (`device`), settings,
  checksums and the texts shown for sizes, speeds and times (`utils`).
- `app/` — the program around it: sockets, the SQLite history, files on disk, the settings
  file and the JSON form of the messages.
- `tests/` — tests of the library.
