# levelup

Small desktop tools for a Linux terminal, around a verified library:

- **bragi**: PipeWire audio. Route streams, switch devices, set volumes.
- **gorm**: Bluetooth devices. Connect, pair, trust, block and forget.
- **heimdall**: the devices on the local network, found without root.
- **hugin** and **hugind**: the clipboard history of a Wayland session.

`src/` is the library. It holds what the tools know and decide: the models of the
audio graph, of the devices and of the clipboard history, the parsers, the rankings
and searches, the key handling of the pickers and what they show. Its functions are
verified with Verus against their contracts, but for the few that only call into
another crate (see below). What several functions promise together stands beside
them as public proof functions.

| Module | What it holds |
| --- | --- |
| `text`, `number`, `utf8`, `net`, `table`, `sorting`, `ranking` | characters, numbers, addresses, maps in the order of their keys, orders |
| `base` | paths, fuzzy matching, what is safe to print, shells, schema versions |
| `ui` | keys, the query line, highlighting, what all pickers share |
| `oui` | manufacturers by hardware address |
| `bragi`, `gorm`, `heimdall`, `hugin` | one directory for each tool |

`app/` is the program around it: arguments, the terminal, sockets, the database,
and the connections to PipeWire, BlueZ and Wayland. `tests/` runs the library.

Volumes are floating-point numbers and are computed in `app/`. Calls into other
crates that the library makes stand behind small functions whose contracts are
believed; each says in its comment what is claimed.
