# xray_controller

The controller of an Xray Docker stack. It listens on a Unix socket for a
health check and for a parameterless `POST /apply`, which finds the one Xray
container of its Compose project, tests Xray's fixed configuration inside it,
restarts it, waits for it to run and tests the configuration again.

- `src/` is the library, verified with Verus: byte-level HTTP against the
  Docker Engine API (`http`, `chunked`), query encoding (`percent`), the JSON
  it writes (`json`), the control socket's routing and replies (`control`),
  and the apply procedure as a state machine (`apply`).
- `app/main.rs` is the program: sockets, threads, the apply lock, the clock,
  and JSON decoding of Docker's responses; it runs the library's state
  machine and performs what it asks for.
- `tests/` exercises the library on concrete inputs.
