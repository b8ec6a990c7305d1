# canary

The verified core of Canary, a decompiler that raises machine code to
readable, rebuildable source. Every function under `src/` carries a
contract that Verus proves; `app/` holds the input and output around it
(saving the analysis cache, rendering reports as JSON, running rebuild
checks, writing exports) and the few computations on floating-point
confidence scores.

Layout of `src/`:

- `scheduler`: ordering analysis passes by the facts they require and
  provide, with the fixed phase-two pipeline.
- `dominators`: dominance over the control-flow graph, stated over
  paths: a block dominates another exactly when every path from the
  entry to it passes through the first. `compute_dominators` also yields
  the dominator tree (each block's nearest strict dominator and its
  children) and the depth-first post-order of the reachable blocks;
  `mark_back_edges` marks the edges whose target dominates their source;
  `intersect` is the finger intersection of the iterative scheme.
- `structuring`: recovery of sequences, conditionals and while loops
  from the graph, its dominator tree and its back edges, with the result
  stated exactly as a structure of the graph; no block is structured
  twice.
- `vsa`: the value-set lattice (join, widening, binary operations) and
  the laws it obeys: join is a commutative, idempotent upper bound with
  bottom as identity and top absorbing, and widening is an upper bound.
- `ssa`, `calling_conv`, `struct_inference`: the SSA form as the
  analyses read it; dominance frontiers by runners climbing the
  dominator tree (which always end on the tree `compute_dominators`
  gives); placement of φ-nodes at the iterated dominance frontier of a
  register's definitions (and only there); validation of
  the SSA discipline, which reports nothing exactly when every name is
  defined once, every φ-node has one operand per predecessor and every
  use is dominated by its definition; calling-convention and signature
  recovery from the registers a function reads on entry, and the
  structure accesses of its loads and stores.
- `stack_vars`, `mlil`: stack-frame recovery (each stack access by its
  value-set offset, overlapping accesses clustered into one variable)
  and the lowering of SSA into the medium-level form over the recovered
  signature, frame and scheduled order; `struct_inference` also lays out
  structures from their field accesses, with padding, in a type arena.
- `x86_registers`: the x86-64 register table of the disassembler's
  register ids, by register and operand size.
- `cfg`, `discovery`, `linear_sweep`: the control-flow model, call-target
  discovery and prologue scanning that feed the whole-program worklist
  (`program_db`, `worklist`); `whole_program` holds its decisions: which
  entry points seed the queue, what the next batch lifts, and what a
  lift's outcome does to the database.
- `assets`: carving PNG, JPEG, WAV and Lua payloads out of sections.
- `clustering`, `subsystem`: label-propagation modules and connected
  call-graph components.
- `naming`: candidate names of each function from its symbol (demangled
  through `cpp_demangle` and `msvc-demangler`), the APIs it calls and the
  strings it reads; weighing them stays in `app/`.
- `api_tracking`, `lifetime`, `semantic_lower`, `identity`: name-based
  classification of APIs and functions, handle and object lifetimes, and
  the lowering of SSA calls and stores to state transitions.
- `image`, `recovered_types`, `vtables`, `rtti`, `inheritance`, `methods`,
  `classes`, `cpp_recovery`, `class_emit`: C++ class recovery from a
  loaded image (vtable runs, MSVC RTTI names, base classes, methods) and
  the header that declares the recovered classes.
- `winrt_align`, `ui_binding`, `provenance`: WinRT interface alignment,
  UI binding candidates, and the pointer alias lattice with its laws.
- `diff`, `rebuild`, `validator`, `include_graph`, `refinement`, `cache`:
  snapshot comparison, compiler output scanning, plugin proposal and call
  arity checks, circular include detection, applying the corrections
  that validation proposes, and the analysis cache.
- `workspace`, `engine`, `field_engine`, `export`: the function registry,
  the decisions of the phase-two pipeline (which pass runs next, which
  order fails and with what message), whole-program summaries, field
  observation bookkeeping, and DOT, GraphML and test-harness renderings.
- `program_emit`, `project_layout`, `project_files`: text of the
  reconstructed project (CMake, Visual Studio files, headers,
  identifiers, base64) and its whole file set: one `.cpp` file per
  module, the signature and import headers, and `CMakeLists.txt`.
- `arch`, `config`: architecture descriptions and workspace settings.
- `text`, `seq_facts`: string comparison, character appends and number
  formatting shared by the emitters, and sequence lemmas.
- `collections` (and `SmallValues` in `vsa`, the demangler calls in
  `naming`): the `indexmap`, `smallvec`, `cpp_demangle` and
  `msvc-demangler` calls the library makes, with the contracts it relies
  on. The tests also use `capstone`'s register ids to check the register
  table.
