# codeowners

A library and command-line tool that generates and validates GitHub
`CODEOWNERS` files and answers who owns a file, written in Verus: the
ownership rules are executable Rust whose behaviour is stated in
`requires` / `ensures` contracts and proved.

Ownership comes from five mechanisms: team annotations at the top of a file,
`.codeowner` directory markers (the deepest one wins), Ruby and JavaScript
package owners, team globs (`owned_globs` minus `unowned_globs`) and
vendored gems named by a team.

## Layout

- `src/` — the verified library.
  - `project*.rs`, `project/` — the model of a project: files, teams,
    packages, vendored gems; building it from directory entries, reading the
    team annotation of a file.
  - `ownership.rs`, `ownership/` — the mappers that turn the project into
    owner matchers and CODEOWNERS entries, the owner finder, the validator,
    the CODEOWNERS generator and parser, reading the generated file back,
    and the fast single-file lookup.
  - `runner.rs`, `runner/`, `crosscheck.rs`, `verify.rs` — the reports that
    the commands print.
  - `cache/` — the on-disk cache of file owners, as a verified map.
  - `text.rs`, `path.rs`, `path_utils.rs`, `sort.rs`, `strmap.rs` — strings,
    paths, sorting and maps with their specifications.
  - `globs.rs`, `regex_match.rs`, `ignore.rs`, `files.rs` — the calls into
    `fast-glob`, `glob`, `regex`, `path-clean` and `std`, each behind a small
    trusted wrapper whose contract states or names what the call returns.
- `tests/` — tests of the library on concrete projects.
- `app/` — the command-line program: argument parsing, the filesystem walk,
  reading YAML and JSON, writing the CODEOWNERS file and the cache.

Each public proof function in `src/` states a law of the library (for
example that a project that validates has an owner for every file and an
up-to-date CODEOWNERS file, that reading back the generated CODEOWNERS file
gives each team exactly the globs of its lines, or that the first matching
CODEOWNERS line decides a file's team).
