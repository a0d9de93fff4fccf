# quakers launcher

A launcher that downloads, verifies and starts the game, with its logic verified by Verus.

A release is described by a manifest: every file's path, size and hash. The launcher compares the
manifest with what is on disk, asks, downloads what is missing or changed (in parallel, resumable,
from one mirror after the other), checks each file against its hash before it moves into place,
deletes what the release has retired, writes a ledger of what is installed, and launches the game.

## Layout

- `src/` is the library. It decides and computes; each function's contract says what, and Verus
  proves it. It reads no files, opens no connections and draws nothing.
- `app/` is the terminal front-end: arguments, files, network, screen.
- `tests/` runs the library.

| Module | What is in it |
|---|---|
| `text`, `number`, `measure` | strings, decimals, byte counts |
| `paths`, `install` | paths as component lists; where to install; which retired files may be deleted |
| `manifest`, `string_map`, `state` | the release, and the ledger of what is installed |
| `plan` | what to fetch and in which order; execute bits |
| `hashing`, `download` | incremental hashing; resuming, failing over, accepting a file |
| `ui`, `confirm`, `report` | progress counters and rows; the question before a download; printed texts |
| `config`, `settings`, `run` | which settings count; the course of a run |

Proof functions named `law_..` state what holds of the library as a whole, for example that a file
is moved into place only when its hash matches, that deleting retired files never leaves the
install root, that nothing is downloaded without consent, and that a recorded install has nothing
left to fetch.

## What is trusted

The hash functions themselves (`blake3`, `blake2`, `hex`) and the way `std::path` takes a path
apart are called, not proved. `hashing` and `paths` state what is relied on.
