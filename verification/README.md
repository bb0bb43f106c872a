# vector_core

The decision and data-structure logic of the Vector editor, written in Verus
and proved against its contracts.

- `src/` is the verified library. Each module states its model in spec
  functions (texts as `Seq<char>`, tables as maps, lists as sequences) and
  every public function says in `ensures` what it returns or changes.
  Calls into outside crates (`semver`, `url`, `shlex`, `shellexpand`,
  `regex`, `indexmap`) and the few std functions that vstd does not specify
  stand behind small trusted wrappers, each with a doc comment that says
  what its contract claims.
- `tests/` runs the library on concrete values.
- `app/` holds what the library leaves to its host: serde copies of the
  library's wire types, reading the operating system's version, the panic
  hook, installing a Linux update with `tar` and `rsync`, following a
  request's redirects over a transport the caller supplies, and scanning an
  extension's directory on disk.
