# shade

A physically modelled piano synthesizer plugin (hammer, unison strings,
soundboard and room, simulated with modal oscillators), split in two:

- `src/` — the verified library (Verus): everything the instrument decides
  with integers and booleans.
  - `rng.rs` — the seeded xorshift64* generator (never reaches the all-zero
    state; its transition is injective).
  - `noise.rs` — seeding and stepping of the per-note hammer and key-release
    noise sources.
  - `keyboard.rs` — modelled note range, unison string counts, the hammer's
    reference string, room-mode volume divisor, the single-note engine's
    note names.
  - `history.rs` — fixed-capacity sample history; a read `k` steps back
    returns the value pushed `k` pushes before the newest.
  - `voices.rs` — the voice slot table: retrigger, stealing of the oldest
    voice, held keys, sustain pedal, note-off, choke; keeps at most one voice
    per note and channel and distinct voice ages.
  - `schedule.rs` — cutting host buffers into blocks at note events, the
    engine-step ring used for output interpolation, the ring-out counter and
    the sub-step decision.
- `app/` — the plugin around it: host callbacks and GUI through nice-plug and
  egui, and the floating-point physical model, which calls the library for
  every decision above.
- `tests/` — tests of the library on concrete values.
