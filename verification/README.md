# project_rules

Verified core of two pieces of repository handling:

- `src/gitignore_stack.rs`: the stack of gitignore matchers active during a
  directory walk (push on entering a directory, truncate on leaving it, a path
  is ignored when any active matcher ignores it). The matching itself is done
  by the `ignore` crate behind small trusted wrappers; `src/path_text.rs` holds
  the `std::path` operations on UTF-8 path text.
- `src/remote_project_rules.rs`: the state machine that keeps the project
  rules (`WARP.md`, `AGENTS.md`) of local and remote repositories up to date.
  Every refresh is stamped with a fresh generation and its result is applied
  only while that generation is the latest of its repository. The functions
  return the next action; `app/` performs it (metadata reads, file reads,
  remote requests) and reports back.

`src/` is verified with Verus; the laws of both modules are the public proof
functions named `lemma_*`. `tests/` runs the library with the real `ignore`
crate; `app/` is the unverified driver.
