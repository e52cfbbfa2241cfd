# edl — ExquisiteDownload, verified core

`edl` is a segmented HTTP download manager with a JSON-RPC daemon. This
crate holds its logic as a library verified with Verus, and a thin program
around it.

Layout:

- `src/` — the verified library.
  - `download_core/` — segments and how a file is split (`segment`), tasks
    (`task`), the task registry with its lookups and statistics (`table`),
    the engine's decisions (create or resume a task, file-name conflicts,
    which segments run, hooks, how a run ends: `engine`), the segment
    worker's decisions (range requests, accepted answers, retries:
    `worker`) and the size check of the finished file (`merge`).
  - `net/http` — header lists, `Content-Disposition` and URL file names,
    metadata of a HEAD response.
  - `rpc/server` — token check and reading a JSON-RPC call into a command.
  - `config` — defaults, configuration-file merging, speed-limit strings,
    hook templates, the default configuration file.
  - `storage/state` — state-file names and finding a saved task.
  - `daemon`, `cli` — service paths, command lines and unit files; the
    command line as data.
  - `util/` — text helpers, paths, speed limiting and byte formatting,
    checksums, progress names.
- `tests/` — tests of the library.
- `app/` — the program: HTTP, files, processes, the async engine loop, the
  RPC server and the command line, calling the library for every decision.
