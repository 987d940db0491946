//! The note-chart logic of a falling-notes piano game: building a song of
//! notes out of the events of a standard MIDI file, timing those events,
//! deciding which notes enter the screen on a frame, and reading the
//! player's keyboard choice and messages.
//!
//! All times are whole nanoseconds (`u64`).

pub mod data;
pub mod systems;

pub use data::midi::{
    meta_event_is_readable, HandlerView, MetaEvent, MidiEvent, MidiFileHandler, MidiSong, BASE_OFFSET_NANOS,
    DEFAULT_BPM, MICROS_PER_MINUTE, NANOS_PER_MINUTE, NANOS_PER_SECOND,
};
pub use data::notes::{Note, NoteComponent};
pub use data::states::{keyboard_event, parse_port_choice};
pub use systems::graphics::notes::{NoteMoveSystem, NoteSpawnSystem};
