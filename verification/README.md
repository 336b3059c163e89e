# kit

A CLI tool for tracking, installing, and managing command-line tools, with its
decision logic written in Verus and proved against its specifications.

- `src/` — the verified library (crate `kit`):
  - `config` — the `kit.toml` model (tools, sources, global paths, default paths).
  - `scanner` — classifying the programs on `PATH` (Homebrew, mise, unknown) and
    finding the names that one `PATH` entry shadows in another.
  - `shell` — the aliases file and the managed block in the shell rc, with the
    proofs that re-injecting the block changes nothing and leaves a single block.
  - `commands` — what `scan`, `setup`, `regen`, `install`, `add`, `list` and `update`
    decide.
  - `sources` — the install sources and the reading of `mise ls --json`.
  - `json`, `text`, `paths` — the JSON model, string operations and path joining
    that the rest is specified over.
  - `system` — the environment: the home directory, `which`, parent paths.
- `app/` — the `kit` program: command line, files, processes, network and TOML.
- `tests/` — tests of the library on concrete values.
