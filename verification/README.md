# cpex_core

A plugin framework. Plugins handle hooks and may observe, shape or deny the
requests that pass through them, in five phases: sequential, transform, audit,
concurrent, and fire-and-forget.

The library under `src/` makes the decisions, and Verus proves that they are what
the contracts say: which plugins a request runs, what each of them may see and
change, what their answers and failures mean, what is recorded of it, and which
irreversible effects are still open after a crash. Laws that span several
functions stand beside them as public proof functions; those on whole runs are in
`src/executor/laws.rs`.

The host under `app/` acts: it invokes handlers, bounds their time, runs them in
parallel, reads and writes files, and serves callers in other languages. It drives
a run by asking for its stage, doing what the stage asks for, and handing back how
that ended.

`tests/` drives the same runs without a runtime.
