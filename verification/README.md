# synth_sequencer

A pattern sequencer library: notes, patterns, tracks, a song arrangement,
time signatures, automation lanes, tracker patterns, the Note Grid and Mod
Grid graph models, and the integer logic of note processing (scale
quantization, chords and strums, arpeggiation, ornaments, note timing).

- `src/` is the library. Every function carries a contract (`requires` /
  `ensures`) that Verus proves; the contracts are stated over mathematical
  models of the data (`Seq`, `Map`, integers).
- `tests/` exercises the library on concrete values.
- `app/` holds what the library leaves out: real-valued shaping (tempo maps,
  automation curves, velocity ramps, humanization, gates and swing), the
  per-tick Note Grid expansion with its bake and freeze paths (driven by the
  library's expansion plan, source seeding and look-back ticks; the gains,
  LFO and envelope levels and probability rolls are real-valued), the shared
  song store, input multiplexing, and serializable record types.
