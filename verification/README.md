# chrome_devtools_cli

A command-line client for the Chrome DevTools Protocol whose decision logic
is a library verified with Verus.

- `src/` — the verified library: browser endpoint resolution, the
  client–daemon framing and daemon file names, request checks and dispatch
  rules, per-tab emulation state and event buffers, console / network /
  service-worker event processing, navigation and input decisions, page
  scripts, the accessibility-tree and tool listings, readable-page
  extraction, and the offline heap-snapshot analysis (aggregation, class
  diff, per-class detail and their CSV renderings).
- `app/` — the program around it: argument parsing, the WebSocket
  connection, the daemon process and its socket, files, and the parts that
  compute with fractional numbers.
- `tests/` — tests of the library.
