# platypus_core

Scanner and radio programming logic, proved with Verus.

The library reads and writes Uniden HPDB / favorites card documents byte for
byte, segments them into systems, extracts and prunes systems and channels,
converts them to the favorites dialect, synthesizes favorites lists, and
encodes and decodes Yaesu FT-60 clone images. Each public function states what
it returns or changes in its `requires` / `ensures` contract, over the
mathematical models (`Seq`, `Set`, `Map`) of the library's types; the laws that
relate several functions (a write read back, a re-application that changes
nothing, priority in the profile registry) are public proof functions.

Layout:

- `src/` is the verified library. `src/device/` holds the radio profiles and
  their registry, `src/format.rs` the card document codec, `src/extract.rs`
  segmentation and selection, `src/favorites.rs` and `src/synthesize.rs` the
  favorites dialect, `src/card.rs` the card layout.
- `tests/` runs the library on concrete inputs.
- `app/` is the ordinary Rust around it: file and serial I/O, and the parts
  that work in floating point (coordinates, distances, MHz).
