# deft

`deft` is a build tool for C and C++ packages: a `deft.toml` manifest, a
fixed project layout, dependencies fetched from git and pinned in
`deft.lock`, parallel compilation with clang, a global cache of built
libraries, `compile_commands.json`, build profiling and `deft doctor`.

The library under `src/` holds every decision of the tool, each with a
contract proved by Verus:

- `manifest`, `compiler`, `engine`, `compdb`: the manifest model, compiler
  and linker arguments, project layout, source scanning and diagnostics;
- `package_build`: building one package as a machine of steps (scan,
  cache key, cache lookup, compile, link, cache store);
- `resolver`, `hash`, `workflow`: dependency resolution, the lockfile, the
  build cache, vendoring, build reports;
- `json`, `trace`, `doctor`: JSON reading and writing, merged build
  traces, environment checks;
- `compiler_laws`, `json_laws`: laws that relate several functions.

`app/` is the command-line program around it: argument parsing, the file
system, processes and threads. `tests/` runs the library on concrete
cases.
