# Žinoma

An incremental build runner: targets declared in `zinoma.yml` files are resolved
into a dependency graph, built in dependency order (in parallel where possible),
skipped when their input and output resources are unchanged since their last
successful build, and, in watch mode, built again when their input changes.

## Layout

- `src/` is the library, verified with Verus:
  - `config/`: the model of the configuration files, the rules on names and
    imports, and the resolution of requested targets into domain targets
    (with the errors that a configuration can give);
  - `domain.rs`, `target.rs`: target identifiers, resources and targets;
  - `engine/`: the state machines of the target actors (aggregate, build,
    service), the engine's routing of their reports, the build and run
    bookkeeping of a build flow, the service graph, and the comparison of the
    saved and current states of a target's resources (with the hash of file
    contents);
  - `watcher.rs`, `engine/watcher.rs`: which file-system events invalidate a target;
  - `paths.rs`, `text.rs`: the path and text operations the rules rely on.
- `app/` is the `zinoma` command around the library: argument parsing, reading
  the configuration files, running scripts and services, reading and listing
  files, saving states, watching the file system.
- `tests/` exercises the library on concrete values.
