# buildwatch

A file-watching build daemon: it watches a project through Watchman, queues
a build for each target whose files changed, builds one target at a time
(highest priority first), and records every result in a shared state
directory that the `wr` freshness gate and `buildwatch status` read.

## Layout

- `src/` — the verified library (Verus). Each module states its contracts
  over mathematical models (`Seq`, `Map`, views of the record types):
  - `queue` — the build queue: coalescing, priority and file affinity,
    one active build; its laws are proof functions in the same file.
  - `config`, `detector` — configuration, runtime overrides, hot reload,
    project detection and generated configurations.
  - `state`, `gate` — the state records, their updates, fuzzy target
    resolution, heartbeat liveness, and the `wr` decision.
  - `daemon`, `watcher` — the daemon's main loop as a state machine
    (event in, action out), the Watchman subscription pieces, reconnection
    backoff.
  - `builder`, `logs`, `notifier`, `output`, `registry` — build results,
    the build log and its weekly rotation, notification texts, error
    output, the lock file and the global registry.
  - `digest`, `text` — hashing and string helpers.
- `app/` — the `buildwatch` / `wr` program: command line, files, processes,
  Watchman, timers and signals, driving the library.
- `tests/` — tests of the library on concrete values.

Calls into `sha2`, `chrono` and `serde_json` made by the library go
through small trusted wrappers whose doc comments say what is assumed.
