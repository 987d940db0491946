use vstd::prelude::*;

verus! {

/// What an on-screen falling note remembers: which key it belongs to and
/// when (in nanoseconds of song time) it has to be played.
#[derive(Clone, Copy, Debug, PartialEq, Eq, Structural)]
pub struct NoteComponent {
    pub key: u8,
    pub time: u64,
}

/// One note of a song.
///
/// `start` and `end` are nanoseconds of song time; an `end` of `0` marks a
/// note whose release has not been seen yet.
#[derive(Clone, Copy, Debug, PartialEq, Eq, Structural)]
pub struct Note {
    pub key: u8,
    pub channel: u8,
    pub start: u64,
    pub end: u64,
    pub velocity: u8,
}

impl Note {
    /// The note is still held: no release has been recorded for it.
    pub open spec fn is_open(self) -> bool {
        self.end == 0
    }

    /// The same note, released at `time`.
    pub open spec fn released_at(self, time: u64) -> Note {
        Note { end: time, ..self }
    }

    /// The falling-note component that shows this note on screen.
    pub fn component(&self) -> (c: NoteComponent)
        ensures
            c == (NoteComponent { key: self.key, time: self.start }),
    {
        NoteComponent { key: self.key, time: self.start }
    }
}

impl Default for Note {
    fn default() -> (n: Note)
        ensures
            n == (Note { key: 0, channel: 0, start: 0, end: 0, velocity: 0 }),
    {
        Note { key: 0, channel: 0, start: 0, end: 0, velocity: 0 }
    }
}

} // verus!
