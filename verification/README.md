# rusty_map

Transforms JSON by running a user-supplied JavaScript module on it, in an
embedded QuickJS engine (`rquickjs`). The module may export
`before_transform`, `try_filter`, `try_map` and `after_transform`, all
optional; they run in that order, with `try_filter` / `try_map` applied per
item (a non-array input is treated as a one-item batch and unwrapped again,
`null` when filtered out).

Layout:

- `src/pipeline.rs` – the pipeline as a model: the steps of a run, their
  order, and how the outcomes of the script's functions are combined.
- `src/laws.rs` – properties proved of every run (step order, pass-through,
  shared context, calls of the exported functions, the walk over an array
  input, filter semantics, unwrapping of single values).
- `src/session.rs` – a QuickJS context with the record of the steps taken
  in it; each step is recorded from what the engine was handed and what it
  returned.
- `src/engine.rs` – the driver that compiles the module, parses the input,
  looks up the stages and runs them through a session, proved to take
  exactly the steps the model prescribes (and to stop at the first failed
  step); a lifetime-free outline of the run is handed out to `run_transform`.
- `src/js.rs`, `src/json.rs` – the calls into `rquickjs` and `serde_json`.
- `src/error.rs` – the error type and its messages.
- `src/lib.rs` – `run_transform`.
- `app/main.rs` – the command line (argument parsing, file and stdin input,
  printing).
