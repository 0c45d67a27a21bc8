# Axiom Rules Engine

A verified engine for rules over entities, periods and relations. The library under `src/` is
written in Verus: every public function carries a contract, and Verus proves it.

- `semantics`, `engine`: what a rule means, and the interpreter that evaluates it with a trace
- `bulk`, `date_use`, `request`, `assessment`: the columnar evaluator of the fast mode, the dates
  that it leaves to the interpreter, requests in either mode, and what assessment dates change
- `lowering`, `reading`, `compiler`, `executor`, `lifetime_executor`: dense compilation, with what
  the compiled rules read, and execution over batches of rows, for one period or over a
  lifetime; `mixing`, `idle`: what an evaluation computes for which rows, and when it mixes dtypes
- `compile`, `schedule`, `dependencies`, `relation_typing`, `relation_direction`: compilation of
  programs into artifacts
- `agreement`, `dense_agreement`, `member_agreement`, `related_agreement`, `constant_agreement`:
  when two sets of facts, or facts and a batch of rows, give the same values
- `exactly_one`, `module_text`, `equivalence`, `rewriting`, `migrate`: migration of modules and
  artifacts

`tests/` runs the library. `app/` is the program around it: the command line, JSON, files,
the Python module and dense execution in floating point.
