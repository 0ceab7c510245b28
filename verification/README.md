# helyos_cli

The `helyos` command-line client for the Helyos container orchestrator, with
its logic in a library verified by Verus.

- `src/` is the verified library: the config file format (reading and
  writing) and named contexts, server addresses and CA fingerprints for
  `helyos login`, the API paths and error messages, the boxed panels and
  tables printed on the terminal, deployment progress, the dashboard's state,
  event-stream framing, and the messages of the simpler commands. Each public
  function states what it returns in its contract; `laws.rs`,
  `config_laws.rs` and the end of `tui.rs` and `stream.rs` hold the
  properties that span several functions (for instance, that a saved config
  reads back as the same config).
- `app/` is the program around it: argument parsing, HTTP requests, files,
  prompts and the terminal dashboard.
- `tests/` runs the library on concrete values.
