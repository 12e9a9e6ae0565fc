# castagne_rs

A verified core for the Castagne fighting-game engine: the `.casp` character
file parser, the engine's memory and state handles, input handling, the
phase schedule of a frame, configuration, global helpers and JSON comparison.

- `src/` is the library, verified with Verus. Each public function carries a
  `requires`/`ensures` contract over spec models (`Seq`, `Map`, views), and
  the cross-cutting laws are public proof functions (`lemma_*`).
- `tests/` holds the executable tests of the library.
- `app/` is the Godot side: the GDExtension entry point, file reading,
  conversion to and from `Variant`, JSON (de)serialisation with serde, and the
  engine loop that runs module callbacks in the order the library schedules.
