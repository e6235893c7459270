# meerkat_lib

A verified runtime for Meerkat, a small reactive language of services.
A service holds variables and definitions; a definition is an expression
over the service's names, recomputed when a variable it depends on is
assigned. Actions are statements kept as values and run later in the
service where they were made.

Layout of `src/`:

- `ast` — syntax and values, their mathematical models, and copies proved
  to keep the model.
- `scope` — free variables, name-keyed association lists, environment
  lookup and capture.
- `manager` — services and the manager that holds them, with their models.
- `semantics` — the big-step semantics (indexed by fuel) of evaluation,
  lookup, assignment with propagation, service creation and statements.
- `evaluator`, `service`, `executor` — the executable code, each function
  proved equal to its semantics.
- `dependency` — the dependency analysis of a service's declarations.
- `remote` — the decisions of a lookup in a service on another node.
- `laws` — properties that span operations (read after write, freshness
  of definitions, closure capture, fuel monotonicity, ...).
