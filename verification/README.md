# den

Den shelves a drop of game files into a library, identifies what it can,
and launches games under RetroArch with a private configuration per session;
a web remote lets a phone on the same network start and stop them.

This crate is the verified core of Den, written in Verus. `src/` holds the
decisions Den makes on values, each with its contract and proof:

- `text`, `path`, `order`: characters, paths as text, and a stable sort.
- `system`, `magic`, `dat`, `table`, `bios`: consoles, file-head
  identification, the identification index and the BIOS names.
- `util`, `unpack`, `identify`, `shelve`, `intake`, `processor`: naming,
  unpacking decisions, identification and shelving, and the report card.
- `config`, `locate`, `runner`: the session configuration, every place
  RetroArch and its cores are looked for, and what a launch hands RetroArch.
- `input`, `den`: controller detection and player assignment, the keyboard
  legend, and what the library handle reports.
- `db`, `views`: the library's records and the statements that read them.
- `guard`, `net`: who may talk to the web remote and where it can be reached.
- `doctor`: how the diagnostic classifies what it finds.

`app/` is the ordinary Rust around it: the disk, SQLite, archives, processes,
sockets and the HTTP server, each handing the library plain values.
`tests/` exercise the library through its public functions.
