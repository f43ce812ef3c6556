# nodewipe

Finds and reclaims disk space taken by disposable development artifacts
(`node_modules`, Python virtual environments and caches, Cargo/Maven/Gradle
build output, Next.js and Turborepo caches, `dist/`), and deletes them to the
OS trash, to a `.tar.gz` archive, or permanently.

## Layout

- `src/` — the engine, verified with Verus. Its decisions are functions with
  contracts: how a directory is classified and whether the walk descends into
  it, which ignore patterns apply, which directories the workspace search
  looks at and which root it picks, how entries are filtered, sorted and
  grouped by workspace, whether a path may be deleted and where its archive
  goes, where an archive is restored to, how the delete mode and excluded
  kinds are resolved from flags and config, the exit status of `delete`, and
  the state machine of the interactive browser with its popup wording.
  `src/laws.rs` states properties that span several functions.
- `app/` — the command-line program around it: argument parsing, the directory
  walk and every other file-system operation, JSON and text output (sizes are
  formatted there, in floating point), drawing the terminal UI, and the
  desktop app's command handlers. It performs the I/O the engine asks for and
  hands the results back as plain values.
- `tests/` — tests of the engine on concrete inputs.
