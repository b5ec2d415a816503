# artop

A verified core for a headless AUTOSAR / EMF model tooling platform. The
library under `src/` is written in Verus: every function carries a
`requires`/`ensures` contract over a mathematical model (`Seq`, `Map`,
`Set`, spec functions) and is proved against it.

## Layout

- `src/text.rs` — character-level text model: search, split/join, trimming,
  words, decimal numerals, lexicographic order, UTF-8 lengths.
- `src/emf_common/` — lists (`BasicEList`, `UniqueEList`, `NotifyingList`),
  insertion-ordered maps (`BasicEMap`), segment sequences, URIs (parse,
  print, resolve, deresolve), diagnostics, the URI converter and handler,
  resources and resource sets, undoable commands (compound, strict compound,
  identity, unexecutable, wrapper) with an undo/redo command stack that
  tracks the saved state, and change notification (notifications, adapters,
  notifiers, notification chains that merge and cancel events).
- `src/emf_acceleo/` — an MTL template engine: the parser for `.mtl` files,
  the template model and variable context, and the renderer (substitution,
  `[if]`, `[for]`).
- `src/artop_common/`, `src/artop_ecore.rs` — metamodel basics: URIs as
  text, packages, classes, structural features, package registries, feature
  maps, and a basic notifier with a chain that collapses repeated sets.
- `src/autosar448_model/` — reflection over a class registry in which
  inheritance is data: transitive super types, `eAllFeatures`,
  `isSuperTypeOf`, cycle counting, reading and writing features.
- `src/artop_validation/` — AUTOSAR constraints: the model-level `uuid`
  uniqueness sweep and the per-object checks (`shortName`, `uuid`,
  `category`, unresolved proxies, sibling uniqueness, ECUC values and
  references) over what an object holds by feature name, and the tables of
  constraints (id, name, message, severity, mode, target class) to register.
- `src/emf_compare/` — model comparison over object keys: the comparison
  result (matches, differences, conflicts, equivalences, dependencies), the
  matching of two containment trees (identifiers, class buckets, greedy
  choice in a given order of preference, descent into matched pairs, and the
  origin pass of three-way matching), the
  difference pass (per-feature changes, additions, deletions, moves found
  through a longest common subsequence), three-way conflict detection,
  equivalences, the dependencies between differences and the order in which
  a merge applies them, and difference filters.
- `tests/` — executable tests of the library.
- `app/` — the environment-facing helpers (working directory, file system
  reads and writes of resources, error stream) and the value types that
  carry floating-point numbers (the reflective value of metamodel objects,
  and the runtime feature value that notifications carry).
