# ditto_replay

Records what a service asks of other systems - HTTP, gRPC, SQL, Redis, annotated
functions - and answers the same calls from the recording later, so that a new
build can be compared with an old one without touching anything outside.

- `src/` is the library: fingerprints, the store in memory, matching, the
  decisions of every interceptor, the JSON diff, reports, the replay harness, the
  source audit and the code generated for annotated items. Every item is verified
  with Verus. Public proof functions state what holds across functions; among
  them that a recorded call is what a replay answers.
- `app/` connects the library to the network, databases, async runtimes and
  procedural macros.
- `tests/` runs the library on concrete values.

The contracts rest on what is said of `serde_json`, `regex`, `toml`, `uuid`,
`chrono` and `base64` in the doc comments of the items marked `external_body` or
`assume_specification`.
