# pes — the Package Environment System

`pes` resolves package requests (`maya-1.2.3+<4`, `nuke-^2.1`) against
repositories of published packages, records the result in a lock file, and
starts a shell or a command in the environment that the solved packages'
manifests describe.

## Layout

- `src/` — the library, verified with Verus:
  - `semantic_version`, `release_type`, `variant`, `range`: versions with
    release types (`1.2.3-beta`) and variant indices, their order and ranges;
  - `parser/`: the grammar of versions, ranges, package requests and
    environment paths (`{root}/lib:@`), as functions on characters whose
    contracts are the grammar itself (`parser/grammar.rs`);
  - `env`, `shell`, `jsys`: path settings, variable providers and the
    environment a solution builds;
  - `manifest`, `lock`, `distribution`, `distribution_range`, `ordered_map`,
    `index_map`: package manifests with their targets, lock files, and the
    ordered maps they are made of (`index_map` holds the trusted declarations
    of the `indexmap` calls);
  - `solve`, `repository`, `presentation`, `finders`: what a solve is asked,
    which distributions it considers, and how its result is shown.
- `tests/` — tests of the library.
- `app/` — the `pes` and `pes-run` command lines: files, plugins, the
  pubgrub resolver, tables and process execution.
