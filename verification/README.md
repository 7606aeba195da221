# neuradix

Verified building blocks of the Neuradix robotics platform, written in Verus.

- `src/graph`: offline deployment validation — configuration bounds, topology
  and policy checks, delayed-feedback cycle detection, contract-reference
  resolution against a registry, and the order-independent deployment identity.
- `src/record`: the native recording container (writer, reader, replay
  digest), the MCAP container writer of the historical profile, the bounded
  streaming MCAP importer, the historical one-timestamp projection, and the
  admission control of the streaming MCAP writer.
- `src/python`: the decisions of the supervised Python worker — newline
  framing of its output, heartbeat health, deadlines, restart budgets, resource
  policy and the resource launcher's checks and report lines.
- `app/`: the I/O around the library — YAML and JSON documents, files, MCAP
  output through the `mcap` crate, worker processes and the launcher's system
  calls.

Every function under `src/` is verified by Verus against its contract; the
tests under `tests/` exercise the compiled library.
