# ttid

Time-tagged identifiers: an identifier of one to three base-36 timestamp
segments (created, updated, deleted), with validation, decoding, a monotonic
generator and a one-request-one-response JSON machine protocol.

Layout:

- `src/` — the library, verified with Verus.
  - `ttid.rs`: the identifier kernel (pattern checks, decoding, generation,
    the generator) with spec functions for each operation.
  - `binary64.rs`: an exact integer model of how a segment's scaled value is
    rounded to milliseconds through binary64 arithmetic.
  - `machine.rs`: the protocol's decisions over a model of the parsed JSON
    request, and the response it yields.
  - `cli.rs`: the command-line grammar and the request each command builds.
  - `client.rs`: the request lines a client sends and how it reads answers.
  - `text.rs`: character-level helpers (ASCII classes, case, trimming).
  - `properties.rs`: laws of the format, proved over the spec functions.
- `tests/` — tests run against the compiled library.
- `app/` — the binary: arguments, clock, files, stdio, JSON text in and out.
