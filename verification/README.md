# seatbelt

Seatbelt runs a command inside a macOS `sandbox-exec` profile. This crate is
its library, verified with Verus, and the program around it.

## Layout

- `src/` — the verified library. It decides everything the program does from
  plain values: the command line (`cli`), the process environment and what
  the file system and Git answered (`paths::FsSnapshot`, `app::RunEnv`).
  Where it needs an answer that it does not have yet, it names the question
  (`paths::HaltOf::NeedProbe`, `NeedConfig`, `NeedGitRoot`) and the caller
  asks again once it has recorded the answer.
  - `env_name` — environment variable names that may be passed through.
  - `unix_path` — Unix paths as bytes: components, joining, parents,
    extensions, `~` expansion.
  - `paths` — resolved paths and the file-system snapshot.
  - `allow_paths` — extra read and write paths, and the refusal of broad
    directories.
  - `profile` — SBPL profiles: string literals, imports and allow rules.
  - `config` — the invocation decided from the options and the YAML config.
  - `sandbox_exec` — the `sandbox-exec` command line and its environment.
  - `shell_quote` — the `run --dry-run` line as shell words.
  - `app` — one run: directories, TMPDIR, Git root, warnings, the step to
    take.
  - `error`, `text`, `test_support` — messages, text helpers, test setup.
- `app/main.rs` — the program: argument parsing, reading the environment,
  the file system, config files and Git, printing, and executing.
- `tests/` — tests of the library, with the file system simulated by the
  answers a test records.
