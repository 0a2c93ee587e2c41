# studiobridge

The verified core of StudioBridge, a Linux control bridge for the BEACN Studio
and a PipeWeaver mixer. The functions in `src/` are checked by Verus against
their `requires`/`ensures` contracts, except the few marked
`#[verifier::external_body]`: thin wrappers around `zeroize`, `ulid` and
standard-library calls (string appending and lowercasing, the monotonic
clock and its conversion to nanoseconds, bounded channels), whose contracts are taken on trust and say in their doc
comments what they claim.

- `src/` — the library: the data model, mixer profile validation and the
  three-pass reconciliation plan (with what its commands do to the mixer)
  and the step function that orders validation, snapshots and passes,
  the mock mixer and studio state, the DSP write gate and write switches, saved profile files and their names, the
  microphone comparison engine and its worker protocol, the refresh,
  status, hotkey and selection rules of the desktop client, and the display
  model of a snapshot (target order, source rows, routing grid, Link rows).
- `tests/` — tests of the library on concrete values.
- `app/` — the daemon program around the library: command-line options, the
  HTTP API (axum), JSON copies of the model types (serde), profile files on
  disk, timeouts, and the floating-point microphone DSP state.
