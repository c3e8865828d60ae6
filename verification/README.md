# proto_core

The core logic of the proto toolchain manager, written in Verus. The
functions in `src/` carry contracts that Verus proves; where a function reads
the clock (`helpers::now`) or another outside source, its contract says what
holds whatever came back, and a verified function that takes the outside
result as an argument states the rest exactly. Laws that span functions
(what a second call leaves unchanged, what one call undoes, what a split
partitions) are public proof functions beside them.

## Layout

- `src/` — the verified library.
  - `text`, `captures`, `assoc`, `paths`: strings, regular-expression match
    spans, association lists and paths, with their abstract views.
  - `id`, `context`: tool identifiers and tool contexts.
  - `trust`, `sensitive`, `files`: config trust (trust records, trusted
    paths, CI), the split of a config into its safe and its
    security-sensitive settings, and the config files of the directories
    from the working directory upwards.
  - `config`, `validate`, `environment`, `helpers`, `store`, `registry`:
    environment variables and env files, builtin plugins, the check of a
    config's unknown fields, store layout, registries, and small helpers.
  - `shims`, `bins`, `link`, `locate`: shim ownership, version buckets of
    linked binaries, what is linked and relinked, and where executables,
    globals and shims are found.
  - `lock`, `manifest`, `checksum`, `gpg`, `install`, `detect`, `expand`,
    `human`, `order`, `manage`: lockfile records, the tool manifest,
    checksum files and signatures, the decisions of the install, uninstall
    and detection flows (detection is a step function from stage and event
    to next stage and action, which `app/` drives), the expansion of
    detected versions against the installed ones, and the order of
    resolved versions.
  - `hashing`: the digests, through `starbase_utils`.
- `tests/` — tests of the library, run against the real outside crates.
- `app/` — the I/O around the library: reading the environment and files,
  locking and writing the shim registry, serde forms of the library's
  types, and network probes.

Calls into outside crates (`pgp`, `minisign-verify`, `regex`, `semver`,
`lenient_semver`, `version_spec`, `human-sort`, `shell-words`, `starbase_utils`,
`starbase_archive`, `proto_shim`) stand behind small trusted wrappers, each
with a doc comment that says what its contract claims of the outside code.

## Platform

Some outside functions behave differently on Windows:
`starbase_utils::path::normalize_separators` turns `/` into `\` there and
`\` into `/` elsewhere, and `starbase_utils::path::exe_name`,
`proto_shim::get_exe_file_name` and `proto_shim::get_shim_file_name` append
`.exe` on Windows (unless the name ends with it) and keep the name
elsewhere. Their wrappers state both outcomes, and name the result of the
build at hand (`native_separators`, `exe_file_name`, `bin_file_name`,
`shim_file_name`), so the contracts of `locate`, `link` and `install` hold
on every build. `helpers::get_bin_name` takes the target system as an
argument.
