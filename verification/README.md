# Background System Monitor

An API server that keeps the latest snapshot of the system it runs on: CPU,
memory, swap, uptime, disks, network interfaces and GPUs.

- `GET /api/system` answers with the latest snapshot. Where the last collection
  failed, or the snapshot is three seconds old or older, it answers with status
  503 and a fixed error.
- `GET /health` answers with the program's name and `OK`, or with status 503 and
  `UNAVAILABLE`.
- `POST /control/shutdown` shuts the server down. There is no authentication.

The server listens on `127.0.0.1:3001`; `BIND_ADDR` names another address.

## Layout

- `src/` is the library, verified with Verus. It decides what is read when, turns
  readings into metrics, and answers from the state of the monitor. It does no
  I/O: readings and points in time are arguments.
  - `float/`: single- and double-precision numbers by their bits, with rounding
    to nearest, ties to even
  - `time`, `text`: spans of time, and texts as sequences of characters
  - `metrics`: percentages, rates, temperatures and plausible values
  - `gpu/`: the GPUs of Linux, Windows and macOS, and how telemetry of NVIDIA and
    AMD devices is added to them
  - `macos_smc`, `thermal_zone`: sensors of Apple machines and of Windows
  - `snapshot`, `collector`: the snapshot and how it comes about
  - `system_monitor`: health, and the answers of the API
- `app/` is the server around the library: it reads the system, runs the
  collection once a second and serves the answers.
- `tests/` runs the library.
