# pipeline_service

A library for Azure-DevOps-style pipelines, written in Verus: the pipeline
model, YAML-facing parse errors, template parameters, expansion and
resolution, the expression lexer and parser, dependency graphs and their
execution levels, the decisions of the pipeline executor and the shell
runner, the task cache and task runner, and a small user service.

Every function in `src/` states its behaviour in `requires`/`ensures`
clauses that Verus proves. Where the library calls an outside crate
(`serde_yaml`, `serde_json`, `dirs`, `tokio`) or a part of `std` that Verus
does not specify, the call sits in a small `#[verifier::external_body]`
function whose contract says what that call is documented to do; those
functions are the trusted part of the crate.

Layout:

- `src/` — the verified library (`src/lib.rs` lists the modules).
- `tests/` — tests run against the compiled library.
- `app/` — plain Rust around the library: reading YAML and files, running
  processes, fetching tasks into the task cache, the floating-point
  expression evaluator, and the serde copies
  of library types.
