# keyfall

The note-chart logic of Key Fall, a falling-notes piano game, as a Verus
library with its proofs, and the game around it.

- `src/data/midi.rs`: collecting the notes of a standard MIDI file while its
  events are read (timing, tempo, key presses and releases), with the laws
  that hold of it.
- `src/data/notes.rs`: notes and on-screen note components.
- `src/data/states.rs`: reading the player's choice of keyboard port and the
  keyboard's messages.
- `src/systems/graphics/notes.rs`: which notes go on screen on a frame, when
  they leave it, and how far they still have to fall.
- `app/`: the game itself on the amethyst engine, reading files with ghakuf
  and the keyboard with midir.

Times in the library are whole nanoseconds; the game converts them to the
engine's seconds.
