# sentinel_core

The planning core of Sentinel, a pipeline runner: a pipeline manifest lists
operators (sources, transforms, sinks), each naming the operators it depends
on. The library, verified with Verus, orders the operators so that every one
runs after its dependencies (or names an operator on a dependency cycle),
decides how the engine wires the operators' tasks and channels, and computes
what the command line tool shows and writes.

- `src/graph.rs`: paths, cycles and topological orders of a directed graph,
  and the petgraph calls (graph building, `toposort`) with their contracts.
- `src/lookup.rs`: finding a value by its last occurrence, as a map filled in
  order does.
- `src/dependency.rs`: the dependency graph of a list of operators and its
  topological order.
- `src/plan/`, `src/dag/`: the two manifest formats and their planners.
- `src/engine/runtime.rs`: the wiring of the engine's tasks and the rules of
  each task's loop.
- `src/cli.rs`: workspace layout and the printed plan.
- `app/`: the command line tool, TOML parsing, the tokio engine, the CSV
  source connector and the UDF attribute, which Verus does not check.
