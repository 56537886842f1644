# cvm

`cvm` manages LLVM and GCC toolchain versions: it installs releases built from
upstream sources, switches the compiler of the current shell, and keeps
persistent defaults under `$CVM_HOME` (`$HOME/.cvm` when unset).

The crate is a library whose logic is verified with Verus, and a thin command
line around it.

- `src/` holds the verified library. Every public function states in its
  contract what it returns, and the properties that span functions are public
  proof functions named `law_*`.
  - `text`: decimal numbers, searching and splitting text.
  - `version`: `X.Y.Z[-rcN]` versions, their order and their prefixes.
  - `tool`: the compiler families and `tool@version` specs.
  - `remote`: the remote index of releases and of cvm's own latest release.
  - `resolve`: choosing the version a command means, locally or remotely,
    and the upstream archive of a release.
  - `paths`: where cvm keeps its state, and download file names.
  - `shell`: the shell snippets that switch toolchains, and completions.
  - `profile`: build profiles turned into the backend's environment.
  - `cache`: durations, staleness and downloads of the source cache.
  - `cli`: the command-line words and options.
  - `platform`: release asset names, diagnostics and small records on disk.
  - `listing`: the order in which versions, cache entries and profiles are listed.
- `app/` reads the environment, the disk and the network, runs the backend
  build scripts, parses JSON and TOML into the library's types, and prints.
- `tests/` exercises the library on concrete values.
