# plm

The logic of PLM, a Protobuf Library Manager, as a Verus library: every function
in `src/` carries a contract that Verus proves, except the few small functions
marked `external_body` that call the `semver`, `argon2` and `jsonwebtoken` crates
or `std::path`; their contracts are believed, as their doc comments say.

## Layout

- `src/` — the verified library.
  - `cli` — commands and options of the `plm` command line, library names, the
    manifest written by `init`, install bookkeeping, log levels and messages.
  - `configs` — the `.plmrc` settings files: parsing, precedence, writing back.
  - `dag` — a dependency graph that never holds a cycle.
  - `versioning` — picking the greatest available version that meets each
    semantic-version requirement (through the `semver` crate).
  - `lock` — the lock file of installed libraries.
  - `store` — the local library store, collecting `.proto` files for a release and
    grouping them by package.
  - `client` — what the command line sends to the registry.
  - `registry`, `fields` — the registry's settings, its configuration file read key
    by key, its storage layout, and login tokens: issuing them and checking bearer
    tokens (through the `jsonwebtoken` crate).
  - `service` — the decisions of the registry's request handlers, one step per
    piece of database or storage work.
  - `auth` — password hashing and checking (through the `argon2` crate).
  - `fs`, `text`, `order` — paths, text helpers and the ordering of strings.
- `tests/` — tests of the library on concrete values.
- `app/` — the `plm` program around the library: argument parsing, files, prompts,
  JSON forms of the library's types, the clock and secret for tokens.
