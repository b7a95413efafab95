# sir

A verified library of program analyses over a small dataflow IR, with the
logic of the benchmark tools that use it. Every function is specified with
`requires`/`ensures` contracts and proved with Verus.

## Layout

- `src/ir.rs`, `src/graph.rs`: the IR (nodes in an arena, each with a kind
  naming its operands and immediates, its type's name and its effects) and
  graph queries: operands, users, reachability, the topological visiting order.
- `src/factmap.rs`, `src/visit.rs`, `src/facts.rs`: per-node fact tables, the
  "visit every node once" scheme most analyses follow, and the fact types.
- The analyses, each with an exact contract:
  - `use_def.rs`: definitions, users and dead nodes;
  - `dominance.rs`: the greatest solution of the dominator equations,
    immediate dominators and the dominator tree;
  - `constants.rs`: constant propagation, the greatest solution of the
    evaluation equations over the Top/Constant/Bottom lattice;
  - `purity.rs`, `ranges.rs`, `alias.rs`, `value_numbering.rs`: one visit
    in topological order;
  - `escape.rs`: escape kinds propagated along operands;
  - `loops.rs`: trip counts, nesting and reductions of loop nodes.
- `src/manager.rs`, `src/cache.rs`, `src/analysis.rs`: running every
  analysis with a per-function fingerprint cache and statistics.
- `src/vector_plan.rs`, `src/vector_derive.rs`: primitive vector plans and
  their derivation from a loop region and the semantic truths found for it.
- `src/emit.rs`, `src/emit_order.rs`, `src/emit_c.rs`: the C emitter: C
  types, constant literals, operands and node expressions; the dataflow
  emission order and dependency closures; whole functions with their loop
  as a pre-tested `while` over carried values.
- `src/interp.rs`: the interpreter: the value of a node on argument values,
  loops included, within a bound on evaluation steps.
- `src/gate6a.rs`: the recognition evaluation's verdict per corpus row,
  its tallies and its expectations table.
- `src/gate5a_bench.rs`: the C source of the plan-landscape benchmark,
  every plan checked and timed against the original kernel.
- `src/gate5a.rs`, `src/gate6b.rs`,
  `src/compositional_proof.rs`, `src/harness.rs`, `src/ir_scan.rs`,
  `src/h3.rs`: plan enumeration and selection, fused loop and driver
  emission, proof reports, C harness generation, scanning of LLVM IR text,
  and the evaluation harness's value model, comparisons, corpus table and
  input generation.
- `tests/`: tests on concrete values.
- `app/main.rs`: writes the benchmark source to a file (`GATE5A_OUT`,
  by default `/tmp/gate5a_bench.c`).

Each module states its laws as public proof functions named `law_*`.
