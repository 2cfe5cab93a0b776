# klavier_core

The core model of a MIDI score editor, written in Verus: pitches, durations,
notes, bars with repeat symbols, tempo and pedal changes, the rendering of
repeats into play order, tuplets, locations, undo stacks and the project that
holds all items together with commands to undo and redo its changes.

- `src/` is the verified library. Each public function states what it returns
  or changes in `requires` / `ensures`; laws that relate several functions
  stand as public proof functions (`law_*`).
- The stores of a project (`klavier-helper`), interval sets (`intervallum`),
  the greatest common divisor (`gcd`) and the first JSON value of clipboard
  text (`serde_json`) are reached through small trusted wrappers whose
  contracts are written next to them.
- `app/` holds what the library does not: the serialized forms of its types
  (serde), clipboard text, conversions through floating point, note filter
  expressions (fasteval) and the undo store of a project (serdo). That undo
  store is serdo's `InMemoryUndoStore`: the history of commands lives in
  memory only and is not kept on disk (serdo's SQLite-backed store is not
  used), so it is gone when the program ends.
- Event logs: the stores log what each change did. The wrappers state the
  events each call appends, and each command of the project states, over
  those, what it leaves logged in each store.
- `tests/` exercises the library from outside.
