# fscache

A caching filesystem for slow media shares. It mounts over a directory and serves each file from
a copy on a local disk where there is one, and from the directory beneath where there is none.
Presets decide which files are worth a copy, for example the next episodes of a series that is
being watched.

The logic is a library written in Verus: every function states what it does, and the statements
are proved. The program around it makes the system calls.

## Layout

- `src/`: the verified library.
  - `fuse/`: inodes, attributes, and the answers to requests of the kernel.
  - `cache/`: the queue of copy jobs, the course of one copy and the walk through the copies;
    `copier.rs` for a plain copy.
  - `presets/`, `predictor.rs`, `prediction_utils.rs`: what to cache next.
  - `backing_store.rs`, `backing_watch.rs`: the directory beneath a mount, and changes to it.
  - `discovery.rs`: which processes use the mounts.
  - `ipc/`, `tui/`, `telemetry.rs`: messages, counters and log lines.
  - `config.rs`, `utils.rs`, `cli.rs`, `daemon.rs`: settings, names, the command line, and the
    courses of starting and shutting down.
  - `path.rs`, `path_map.rs`, `sort.rs`, `text.rs`: paths, maps of paths, sorting, text.
  - `lru_map.rs`, `dash.rs`: collections of other crates, with what is relied on of them.
- `app/`: the program.
- `tests/`: tests of the library.

Names that begin with `law_` are properties that hold across functions.
