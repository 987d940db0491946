pub mod midi;
pub mod midi_laws;
pub mod notes;
pub mod states;
