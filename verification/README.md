# md_reader

The Live Reload core of a read-only Markdown viewer, verified with Verus.

- `src/watch/classify.rs`: the per-file state machine that turns raw
  directory events into Reload / Detached / Reattached, with a grace period
  that keeps atomic saves from flickering; the mapping of watcher events to
  raw events; and the laws the state machine keeps.
- `src/watch/mod.rs`: the registry of tracked files, grouped by directory,
  which tells directories apart as paths compare, decides when a directory
  watch is needed or can be dropped, feeds
  events and ticks to each file, and builds the events the frontend gets.
- `src/commands.rs`: the opened-file record and the extension listing.
- `src/paths.rs`: the path splitting and path identity that the rest
  relies on.
- `app/`: the Tauri shell: commands, the `notify` watchers, the ticker
  thread, file reads and event emission.
