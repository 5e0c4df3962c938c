# rivus

A verified library for the `rvs_` capability conventions of Rust code:
capability suffixes on function names, capability maps (`*.caps` files),
capability inference over a call graph, and the source and body checks
that report violations.

- `src/` is the library, verified with Verus. The main modules:
  - `capability`, `names`, `symbols`: capability sets, suffix letters and
    definition paths;
  - `capsmap`, `capsfile`: capability maps and their text form;
  - `artifacts`, `graph_index`, `resolver`, `inference`, `incompleteness`,
    `propagation`, `analysis`, `infer_commands`: the call graph, callee
    resolution, capability inference (closed under propagation and least
    on every bounded set), its incompleteness analysis and the prepared
    inference used by the commands;
  - `syntax`, `body_scan`, `call_harvest`, `item_scan`, `source_checks`,
    `extract`, `source_text`: a plain model of Rust source, the checks
    over it, and the entry points that check the text itself with `syn`;
  - `call_observations`, `call_violation`, `contracts`, `lints`,
    `suffix_checks`: call-site and suffix checks and their messages;
  - `flow_map`, `result_flow`, `result_mir`, `result_call`: the `Result`
    flow analysis over a model of function bodies.
- `tests/` exercises the library on concrete values.
- `app/` parses Rust source with `syn` into the library's syntax model and
  hands it to the library's checks.
