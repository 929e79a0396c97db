# ratect-core

The engine core of Ratect, a runner for Batect-style task configurations on
Docker, written as a Verus library: each decision the engine makes carries a
contract, and Verus proves the code against it.

## Layout

- `src/` — the verified library, one module per concern:
  - `engine` — prerequisite wildcards, task-name suggestions, message lists,
    engine settings, and the unreachable-proxy check.
  - `expressions` — `$VAR` / `${VAR:-default}` / `<{config}` interpolation.
  - `include_trust`, `git_include` — what a Git include may do, where its
    files may lie, and the cache key and sidecar rules of the clone cache.
  - `labels`, `resources` — the labels a run puts on what it creates, and how
    leftovers are selected and ordered for removal.
  - `proxy`, `proc_net` — proxy variable propagation, the `localhost`
    rewrite, and the `/proc/net/tcp` check for a loopback-only proxy.
  - `registry_auth` — registry host names of image references, and the
    registries a Docker configuration names.
  - `schema`, `schema_forms` — the configuration file's JSON schema:
    descriptions summarized, the native variant derived, and the
    hand-written string-or-object forms.
  - `ssh_agent` — the minimal ssh-agent protocol: wire encoding, request
    parsing, and the answer to each request.
  - `exit_code`, `interrupt`, `panic_hook` — exit codes, termination signals,
    and the crash report text.
  - `text`, `text_map`, `utf8` — string, map and UTF-8 helpers the rest
    builds on.
- `tests/` — the test suite, run against the compiled library.
- `app/` — the unverified edge: file and network I/O, async plumbing,
  signal handling, and the serde copies of library types.

## Checking

Every function in `src/` is verified by Verus. Calls into outside crates
(`path-clean`, `sha2`, `ssh-key`, `rsa`, `url`) and into parts of std that
Verus has no specification for go through small trusted wrappers. Each
wrapper's contract states only what the outside source shows of it. Where a
result takes pages to state but depends only on the arguments (a digest, a
parsed URL, a key read from its text, a deterministic signature), the
contract names it rather than describes it.
