# gort

A verified cognition library in Verus: semantic constraints and their
deterministic resolution, qubit-style semantic kernels (phases 13–20),
structural recovery and repair experiments (phases 61–63), runtime
adaptation gates (phases 10–11), geometric seeds, fields, shapes and
manifolds (phase 90), and multi-frame analytics (topology, flow, energy,
intent).

- `src/` is the library. Every executable function carries a `requires` /
  `ensures` contract over spec models; `src/cognition/multiframe_laws.rs`
  and the `lemma_*` proof functions of the other modules state the laws
  that hold across inputs and calls.
- `src/text.rs` and `src/json.rs` hold the text, digest and JSON framing
  helpers; the calls into std's `DefaultHasher` and `str::to_lowercase`,
  sha2's SHA-256 and serde_json's string encoding sit behind small trusted
  wrappers there.
- `app/` reads and writes the process environment (the structural
  experiment's inputs, the telemetry variables) around the library.
- `tests/` exercises the library on concrete values.

## What is not here, and why

Some entry points rest on components that this crate does not contain, so
they are not provided:

- `MultiFrameCognition::run`, the multi-frame iteration driver: each
  iteration normalises, compresses and merges field energy, applies the
  resonance transform under an arithmetic mode, and writes to an audit
  logger and a parallel runtime. None of those operations is part of this
  crate. The steps of an iteration that rest on none of them are here and
  verified in `src/cognition/multiframe_consolidation.rs` (cross-frame
  fusion, conflict counting, resonance propagation, anchor-guided fusion,
  active anchor energies, anchor continuity, the registered registry,
  emergent constraints and concepts, stable senses), as are the analytics
  the driver feeds (relational distance, topology, evolution, flow,
  potential, action and trajectory fields, intent). The steps that need the
  missing field operations (anchor registration with its perturbation
  test, emergent candidate discovery over field clusters, anchor-weighted
  interpretation and anchor persistence) are not.
- `ConstraintEvalEngine::apply_resonance_transform` and
  `apply_resonance_transform_with_mode`: they hand the field to the
  resonance transform and arithmetic modes, which are not part of this
  crate.
- The phase 10/11 runtime stages that run multi-frame episodes
  (`phase10_build_runtime_adaptation_bridge`,
  `phase10_integrate_operator_plan_into_runtime_transitions`,
  `phase10_execute_closed_loop_integrity_stage`,
  `phase10_regenerate_phase9_seed_from_adapted_episode`,
  `phase10_run_top_level_acceptance_stage`,
  `phase10_run_slice7_multicycle_replay_acceptance_stage`,
  `phase10_run_runtime_adaptation_episode`,
  `phase11_run_multi_loop_convergence_stage`, and the
  `Phase10RuntimeFeedbackSeedLoop` record with its telemetry emitter):
  they take and return the phase 70 adjustment logs and registries and the
  phase 80 episode traces, deltas, summaries and hooks, none of which is
  part of this crate. The phase 10 gates that do not need them (slice 2
  routing acceptance, slice 4 continuity preservation and their policies),
  the stage records and their telemetry lines are here and verified.

`src/geom` holds the semantic field, coordinate and closure-invariant types
with the operations that the cognition modules use, and no more.
