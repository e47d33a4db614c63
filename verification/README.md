# parallax

The deterministic core of a server of corrective reasoning tools, written in
Verus: the decisions the tools make around their model calls are executable
functions with contracts, and several properties that span calls (the
ceiling latch, order independence of routing, grounding and claim-key laws)
are stated and proved as proof functions.

## Layout

- `src/routing.rs` — call sites, model tiers and efforts, and the resolution
  of a routing table from environment-style variables.
- `src/error.rs` — the error taxonomy, outcome classes and billed usage.
- `src/text.rs` — character-level text handling shared by every module.
- `src/schema/` — a JSON value and its model, the flat + closed check a
  mode's output schema must pass, the sanitizer that brings a schema into the
  provider's grammar subset, and validation of returned values.
- `src/modes/` — the corrective modes (verify, grounded verify, unstick,
  elicit, decide, diverge): input checks, prompts, pass validation and
  aggregation; and the mode registry.
- `src/memory/` — memory records, the save / recall / forget decisions,
  consolidation rules and the push of memories into a prompt.
- `src/research/` — the research run: settings, scope plan, search merging,
  fetch hygiene, evidence excerpts, claim deduplication, verification
  support, grounding of the synthesis, coverage and result assembly, and the
  run itself as a state machine (`stepper.rs`), begun only on validated
  parameters, that gates every unit of work on the budget and deadline,
  accounts for every claim and records the tokens each model spent.
- `src/observability.rs` — the provider name telemetry reports for a model.
- `tests/` — behaviour tests on concrete values.
- `app/` — what stays outside the verified library: the process environment,
  floating-point scores, serialized output shapes, JSON conversions, and the
  loop that performs a research run's outside work and feeds the state
  machine.

Calls into `jsonschema`, `robotstxt`, `rs-trafilatura`, `url` and a few
standard-library functions stand behind trusted wrappers whose contracts name
their results; everything built on them is verified.
