# workspace_node_tools

Tools for node monorepos: which package manager a workspace uses, where its
root is, which packages it holds and which of them changed, the change file
(`.changes.json`) that records what each branch releases, version bumps, and
the git commands and release tags around a release.

## Layout

- `src/` is the library, verified with Verus. Every decision is taken there:
  detecting the package manager from lock files, reading and editing
  manifests (as JSON values), selecting workspace packages, recording and
  reading changes, planning bumps (with dependents kept in sync), computing
  next versions, choosing the last publish tag of a package, reading the
  output of git commands and building their arguments, and turning
  repository URLs into links.
  - `text`, `json`, `branch_map`: strings, JSON values and a branch-keyed map
    with their specifications.
  - `manager`, `agent`, `paths`, `filesystem`: package managers and roots.
  - `packages`, `monorepo`: packages of a workspace, their manifests and
    repositories.
  - `changes`, `bumps`, `conventional`: the change file and releases.
  - `git`: git commands, commits and tags.
  - `workspace_std`: the standalone workspace helpers.
- The few calls into other crates (`semver`, `version-compare`, `icu`'s
  collator, `wax` globs) stand behind small trusted wrappers whose contracts
  name what they return.
- `app/` runs the library on a real machine: it starts git and the package
  managers, reads and writes files, and holds the serialised forms of the
  library's types and the changelog generation with `git-cliff-core`.
- `tests/` exercises the library on concrete values.
