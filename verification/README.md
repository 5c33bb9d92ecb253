# vico-vee

The ViCo Execution Environment: a service that accepts sandboxed execution
tasks, enforces capability-based security with Ed25519-signed grants,
isolates workers with rlimits, Landlock and seccomp-bpf, keeps artifacts in a
content-addressable store, and reviews artifacts as patches (Osmosis diff,
merge and reject).

## Layout

- `src/` is the library, verified with Verus. It holds the service's
  decisions and data: capability grants and their signed tokens (`capability`,
  `claims`) and how the signing seed is kept at rest (`keys`), the execution lifecycle (`daemon`), the line diff and its LCS
  (`diff`, `lcs`), Osmosis (`osmosis`), hypothesis validation (`validation`),
  provenance hashing (`provenance`), the sandbox plans (`landlock`, `seccomp`,
  `sandbox`), the security audit verdicts (`audit`), configuration layering
  (`config`), API-key checks (`auth`), tenancy (`tenant`), schema migration
  plans (`migrations`), and the request decisions of the HTTP API (`server`).
  Each public function states its result in its contract; the laws that
  relate several functions are public proof functions.
- `tests/` runs the library on concrete values.
- `app/` is the service around it: the HTTP server, TLS, the SQLite stores,
  the process sandbox, the background runs, rate limiting and metrics.

Calls into outside crates that the library makes (ed25519-dalek, base64,
hex, sha2, blake3, chacha20poly1305, uuid, chrono, dirs) stand behind small trusted wrappers
whose contracts are written next to them.
