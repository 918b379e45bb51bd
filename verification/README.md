# masterblaster

A tracker / modular music engine: songs made of tracks that play pattern
clips through an audio graph of machines, loaded from MOD and Buzz (BMX)
files, rendered to 16-bit WAV.

The engine's logic is a Verus library whose functions carry contracts that
Verus proves:

- `src/` — the verified library.
  - Data model: musical time, patterns, effects, events, samples,
    instruments, songs, the audio graph.
  - Scheduling: walking track sequences into timed events
    (`scheduler`, `clip_source`), the event queue, the transport clock.
  - Playback state in integers: tracker channels and their effects
    (`channel`), envelope breakpoint walking (`envelope_walk`), voices and
    the voice pool, graph ordering.
  - Editing: cell and sequence edits with their inverses.
  - File formats: MOD, BMX (including compressed waves) and WAV, each a
    parser on bytes with a contract over the bytes.
- `app/` — ordinary Rust around the library: the f32 side (audio buffers,
  modulation envelope values, machines, graph mixing, the playback engine
  and offline rendering) and file output.
- `tests/` — tests of the library, run against the compiled crate.

The library uses `arrayvec` for fixed-capacity names and `slotmap` for the
sample bank; the contracts of the calls into them are stated where they are
made, in `src/names.rs` and `src/voice_pool.rs`.
