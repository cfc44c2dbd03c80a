# mnemosyne_atomic

A workspace-wide store of typed design facts — sections, changelog entries,
inventory ids, confirmation events — and a narrative axis of frames,
world-lines, entities, predicates, facts and disclosure plans, with the
mutate primitives that keep each collection's rules. The library is written
in Verus: every primitive states in its contract what it accepts, what it
refuses and with which message, and what it leaves in the store.

## Layout

- `src/` — the verified library.
  - `model`, `narrative`, `strmap`: the store's types, their views, and a
    sorted string-keyed map.
  - `section`, `changelog`, `inventory`, `events`, `confirm`, `redact`:
    the primitives of the design-fact axis and the projections over them.
  - `registry`, `facts`, `succession`, `fact_ops`, `disclosure`,
    `manifest`, `proposals`: the narrative axis — registries, the one fact
    builder, cross-fact references and the cycle guard, the fact write
    paths, disclosure decisions, the all-kinds manifest, and the reviewed
    proposal imports.
  - `manifest_laws`, `integrity`, `acyclic`: what holds across calls —
    re-applying a manifest is a no-op, each write path agrees with its
    manifest counterpart, and every fact write path keeps the facts' edges
    landing on facts and succession free of loops.
  - `generations`, `store`: the schema ladder and the load-time admission
    of a store.
  - `outside`: the calls into std formatting, `sha2`, `serde_json` and
    `regex`, with the contracts believed of them.
- `tests/` — tests over concrete values.
- `app/` — reading and writing the sidecar JSON, receipts of persisted
  mutations, and loading proposal files.
