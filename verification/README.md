# openquota_codex

The Codex provider of a usage monitor: which Codex accounts there are on a machine, their
credentials, and the usage that session logs record.

- `src/` is the library. Its functions are verified with Verus against their contracts, but for the
  trusted ones named below.
- `tests/` runs the library, together with the crates it calls.
- `app/` is ordinary Rust around the library: files, the keychain, the environment, the clock and
  the database.

The library does no input or output. It is handed what was read (`stored::StoredCredentials`, the
text of a log, the listing of a directory) and hands back what is to be shown or stored. Paths are
plans (`paths::PathPlan`) that the application resolves on the machine.

What other crates compute is called through small trusted functions, each of which says in its
comment what is taken on trust: JSON parsing and writing (`json`, `json_text`), base64 (`token`),
RFC 3339 and the range of the calendar (`time`), SHA-256 (`digest`).

Floating point stays outside. Doubles in documents are kept as the parser holds them. Prices are carried by the bits of their doubles, and the library
decides which rates and tokens a use is priced with (`pricing::CostQuote`); the application
multiplies.
