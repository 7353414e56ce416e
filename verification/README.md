# rustlauncher

A Minecraft launcher library whose logic is verified with Verus, and a
small command-line program around it.

- `src/` — the library, verified by Verus against `requires`/`ensures`
  contracts: version discovery and sorting, classpath
  assembly (Maven layout, artifact deduplication, LWJGL conflicts), the
  JVM and game argument list, offline accounts (name rules, name-based
  UUIDs, Argon2id password hashes), the account store and instances,
  Modrinth URLs and download plans, Java runtime selection and download
  resolution, diagnostics reports, session log numbering, translations
  and an NBT reader/writer. Calls into `md5`, `argon2` and `rand_core` go
  through a few small trusted wrappers; each one's doc comment says what
  its contract assumes of the outside code (the random salt draw promises
  nothing, so it has no `ensures`).
- `app/` — the program: argument parsing (`clap`), reading the game
  directory, probing Java runtimes, unpacking natives (`zip`), running the
  game, the SQLite account database (`rusqlite`) and `instances.json`.
- `tests/` — tests of the library on concrete values.

Run `rustlauncher versions --game-dir <dir>` to list installed versions
and `rustlauncher launch --version <name> --game-dir <dir> --username <name>`
to start one (`--dry-run` prints the command instead).
