# eos_use

A module runtime: modules provide named objekts; each objekt declares
invocations (nodes of a graph, linked by parent and child names) and
entrypoints. The invoker checks that the declared graph is consistent and
builds a graph of wait slots, which the runtime runs with one thread per
invocation.

Layout:

- `src/` — the verified library.
  - `invocations/invoker.rs`: collecting templates and entrypoints, the
    consistency checks and their messages, building the slot graph, and how
    the control flows of finished threads are joined.
  - `invocations/invocation.rs`: templates, built invocations, and the
    decisions a running invocation takes (waiting on parents, signalling
    children, what to do after its action ran).
  - `invocations/laws.rs`: properties that span several operations.
  - `utils/`: an ordered map keyed by names, text helpers, panic messages.
  - `modules/`, `objekts/`, `module_list.rs`: module handles, objekt lookup,
    the module list file and the source text that declares modules.
  - `renderers/voxel_renderer.rs`: the voxel renderer module's objekt.
- `app/` — the runtime around it: loading shared libraries, threads, locks,
  reading files, the objekt traits and the voxel renderer's entry points.
- `tests/` — tests of the library.
