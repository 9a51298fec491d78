# sandbox_runtime

Control plane for jailed Firecracker microVMs: start one in a jail, talk to its API, snapshot and
restore it, serve its page faults from the snapshot, and take it down.

- `src/` decides and computes. It is verified with Verus, and does no input or output.
  - `vm/jail.rs` starts and shuts down a microVM, step by step.
  - `vm/api.rs` and `vm/http.rs` write the requests to its API and read the replies.
  - `vm/wait.rs` waits for files and processes, up to a time limit.
  - `vm/uffd.rs` answers page faults.
  - `vm/json.rs` is the boundary to the `serde_json` crate.
  - `demo.rs` describes a run through all of it.
- `app/` carries out what `src/` decides: sockets, processes, files, the clock.
- `tests/` runs the library on concrete values.
