use vstd::prelude::*;

use crate::data::notes::Note;

verus! {

/// Nanoseconds in one second.
pub const NANOS_PER_SECOND: u64 = 1_000_000_000;

/// Nanoseconds in one minute.
pub const NANOS_PER_MINUTE: u64 = 60_000_000_000;

/// Microseconds in one minute: a tempo of `m` microseconds per quarter
/// note is `MICROS_PER_MINUTE / m` beats per minute.
pub const MICROS_PER_MINUTE: u32 = 60_000_000;

/// Song time at which every track starts (3 s of lead-in).
pub const BASE_OFFSET_NANOS: u64 = 3_000_000_000;

/// The tempo of a MIDI file before its first tempo event.
pub const DEFAULT_BPM: u32 = 120;

/// A channel message of a MIDI track, with the fields the file stores.
#[allow(inconsistent_fields)]
#[derive(Clone, Copy, Debug, PartialEq, Eq, Structural)]
pub enum MidiEvent {
    NoteOff { ch: u8, note: u8, velocity: u8 },
    NoteOn { ch: u8, note: u8, velocity: u8 },
    PolyphonicKeyPressure { ch: u8, note: u8, velocity: u8 },
    ControlChange { ch: u8, control: u8, data: u8 },
    ProgramChange { ch: u8, program: u8 },
    ChannelPressure { ch: u8, pressure: u8 },
    PitchBendChange { ch: u8, data: i16 },
    Unknown { ch: u8 },
}

/// The kind of a meta event of a MIDI track; its bytes travel beside it.
#[derive(Clone, Copy, Debug, PartialEq, Eq, Structural)]
pub enum MetaEvent {
    SequenceNumber,
    TextEvent,
    CopyrightNotice,
    SequenceOrTrackName,
    InstrumentName,
    Lyric,
    Marker,
    CuePoint,
    MIDIChannelPrefix,
    EndOfTrack,
    SetTempo,
    SMTPEOffset,
    TimeSignature,
    KeySignature,
    SequencerSpecificMetaEvent,
    Unknown { event_type: u8 },
}

/// A song: its notes in the order their key presses were read.
#[derive(Debug)]
pub struct MidiSong {
    pub length: u64,
    pub bpm: u32,
    pub notes: Vec<Note>,
}

impl Default for MidiSong {
    fn default() -> (s: MidiSong)
        ensures
            s.length == 0,
            s.bpm == 0,
            s.notes@ == Seq::<Note>::empty(),
    {
        MidiSong { length: 0, bpm: 0, notes: Vec::new() }
    }
}

/// Collects the notes of a MIDI file while its events are read in order.
///
/// `delta_accum` is the song time reached in the current track,
/// `current_bpm` the tempo in force, `resolution` the ticks per quarter note
/// of the file and `signature` the last time signature as
/// (numerator, denominator).
#[derive(Debug)]
pub struct MidiFileHandler {
    pub song: MidiSong,
    pub delta_accum: u64,
    pub current_bpm: u32,
    pub resolution: u16,
    pub signature: (u8, u8),
    pub base_offset: u64,
}

/// The state of a [`MidiFileHandler`] as mathematical values.
pub struct HandlerView {
    pub length: u64,
    pub bpm: u32,
    pub notes: Seq<Note>,
    pub delta_accum: u64,
    pub current_bpm: u32,
    pub resolution: u16,
    pub signature: (u8, u8),
    pub base_offset: u64,
}

impl View for MidiFileHandler {
    type V = HandlerView;

    open spec fn view(&self) -> HandlerView {
        HandlerView {
            length: self.song.length,
            bpm: self.song.bpm,
            notes: self.song.notes@,
            delta_accum: self.delta_accum,
            current_bpm: self.current_bpm,
            resolution: self.resolution,
            signature: self.signature,
            base_offset: self.base_offset,
        }
    }
}

/// The state of a new handler: no notes, the default tempo, a 1/1
/// signature, no resolution yet and the time of a fresh track.
pub open spec fn fresh_handler() -> HandlerView {
    HandlerView {
        length: 0,
        bpm: 0,
        notes: Seq::<Note>::empty(),
        delta_accum: BASE_OFFSET_NANOS,
        current_bpm: DEFAULT_BPM,
        resolution: 0,
        signature: (1, 1),
        base_offset: BASE_OFFSET_NANOS,
    }
}

/// One call the reader of a MIDI file makes on a handler.
pub enum HandlerStep {
    Header { time_base: u16 },
    Meta { meta: MetaEvent, data: Seq<u8> },
    Midi { delta: u32, message: MidiEvent },
    TrackChange,
}

/// No step of `steps` begins a new track.
pub open spec fn within_one_track(steps: Seq<HandlerStep>) -> bool {
    forall|i: int| 0 <= i < steps.len() ==> !(#[trigger] steps[i] is TrackChange)
}

/// `a + b`, held at `u64::MAX` where it would not fit.
pub open spec fn saturating_sum(a: u64, b: u64) -> u64 {
    if a + b > u64::MAX {
        u64::MAX
    } else {
        (a + b) as u64
    }
}

/// Nanoseconds that `delta` ticks last at `bpm` quarter notes per minute and
/// `resolution` ticks per quarter note, rounded down. Where no tick length
/// exists (a tempo or resolution of zero), or the span does not fit, the
/// span is `u64::MAX`: time becomes unbounded.
pub open spec fn event_offset(delta: u32, bpm: u32, resolution: u16) -> u64 {
    let ticks_per_minute = bpm * resolution;
    if ticks_per_minute == 0 {
        u64::MAX
    } else {
        let span = (NANOS_PER_MINUTE * delta) / ticks_per_minute;
        if span > u64::MAX {
            u64::MAX
        } else {
            span as u64
        }
    }
}

/// Microseconds per quarter note held by the three bytes of a tempo event.
pub open spec fn tempo_micros(data: Seq<u8>) -> int {
    data[0] * 65536 + data[1] * 256 + data[2]
}

/// `n` is a still-held note of key `key`.
pub open spec fn holds_key(n: Note, key: u8) -> bool {
    n.key == key && n.is_open()
}

/// Index of the latest still-held note of key `key`, if any.
pub open spec fn last_open(notes: Seq<Note>, key: u8) -> Option<int>
    decreases notes.len(),
{
    if notes.len() == 0 {
        None
    } else if holds_key(notes.last(), key) {
        Some(notes.len() - 1)
    } else {
        last_open(notes.drop_last(), key)
    }
}

/// The notes after the release of key `key` at `time`: the latest
/// still-held note of that key ends there; without one nothing changes.
pub open spec fn release(notes: Seq<Note>, key: u8, time: u64) -> Seq<Note> {
    match last_open(notes, key) {
        Some(i) => notes.update(i, notes[i].released_at(time)),
        None => notes,
    }
}

/// The meta events whose bytes the handler reads carry enough of them:
/// three for a tempo, which must not be zero, and two for a time signature.
pub open spec fn meta_event_readable(event: MetaEvent, data: Seq<u8>) -> bool {
    &&& event is SetTempo ==> data.len() >= 3 && tempo_micros(data) != 0
    &&& event is TimeSignature ==> data.len() >= 2
}

/// Whether a meta event carries the bytes that reading it needs (see
/// [`meta_event_readable`]).
pub fn meta_event_is_readable(event: &MetaEvent, data: &Vec<u8>) -> (b: bool)
    ensures
        b == meta_event_readable(*event, data@),
{
    match event {
        MetaEvent::SetTempo => data.len() >= 3 && (data[0] != 0 || data[1] != 0 || data[2] != 0),
        MetaEvent::TimeSignature => data.len() >= 2,
        _ => true,
    }
}

impl HandlerView {
    /// The state after `delta` ticks have passed.
    pub open spec fn advanced(self, delta: u32) -> HandlerView {
        HandlerView {
            delta_accum: saturating_sum(
                self.delta_accum,
                event_offset(delta, self.current_bpm, self.resolution),
            ),
            ..self
        }
    }

    /// The state after the release of key `key` at `time`.
    pub open spec fn with_release(self, key: u8, time: u64) -> HandlerView {
        HandlerView { notes: release(self.notes, key, time), ..self }
    }

    /// The state after a channel message that comes `delta` ticks after the
    /// previous one: time advances, a key press with a velocity adds a note,
    /// a key press of velocity zero or a key release ends the latest held
    /// note of that key, and anything else only advances time.
    pub open spec fn after_midi_event(self, delta: u32, event: MidiEvent) -> HandlerView {
        let h = self.advanced(delta);
        let t = h.delta_accum;
        match event {
            MidiEvent::NoteOn { ch, note, velocity } => {
                if velocity == 0 {
                    h.with_release(note, t)
                } else {
                    HandlerView {
                        notes: h.notes.push(
                            Note { key: note, channel: ch, start: t, end: 0, velocity },
                        ),
                        ..h
                    }
                }
            },
            MidiEvent::NoteOff { ch, note, velocity } => h.with_release(note, t),
            _ => h,
        }
    }

    /// The state after a meta event: a tempo sets the beats per minute, a
    /// time signature is recorded, and anything else changes nothing.
    pub open spec fn after_meta_event(self, event: MetaEvent, data: Seq<u8>) -> HandlerView {
        match event {
            MetaEvent::SetTempo => HandlerView {
                current_bpm: (MICROS_PER_MINUTE as int / tempo_micros(data)) as u32,
                ..self
            },
            MetaEvent::TimeSignature => HandlerView { signature: (data[0], data[1]), ..self },
            _ => self,
        }
    }

    /// The state after the file's header: its ticks per quarter note.
    pub open spec fn after_header(self, time_base: u16) -> HandlerView {
        HandlerView { resolution: time_base, ..self }
    }

    /// The state after a new track begins: its time starts from the offset.
    pub open spec fn after_track_change(self) -> HandlerView {
        HandlerView { delta_accum: self.base_offset, ..self }
    }

    /// The state after one call of the reader.
    pub open spec fn after_step(self, step: HandlerStep) -> HandlerView {
        match step {
            HandlerStep::Header { time_base } => self.after_header(time_base),
            HandlerStep::Meta { meta, data } => self.after_meta_event(meta, data),
            HandlerStep::Midi { delta, message } => self.after_midi_event(delta, message),
            HandlerStep::TrackChange => self.after_track_change(),
        }
    }

    /// The state after the calls `steps`, in order.
    pub open spec fn after_steps(self, steps: Seq<HandlerStep>) -> HandlerView
        decreases steps.len(),
    {
        if steps.len() == 0 {
            self
        } else {
            self.after_steps(steps.drop_last()).after_step(steps.last())
        }
    }

    /// The notes start in the order they were recorded, no later than the
    /// song time reached, and each ended note ends at or after its start and
    /// no later than that time.
    pub open spec fn notes_in_time_order(self) -> bool {
        &&& forall|i: int, j: int|
            0 <= i < j < self.notes.len() ==> #[trigger] self.notes[i].start
                <= #[trigger] self.notes[j].start
        &&& forall|i: int|
            0 <= i < self.notes.len() ==> {
                &&& #[trigger] self.notes[i].start <= self.delta_accum
                &&& self.notes[i].end == 0 || (self.notes[i].start <= self.notes[i].end
                    && self.notes[i].end <= self.delta_accum)
            }
    }

    /// Song time in the handler, and every time recorded in a note, lies at
    /// or after the start offset; a note's end may also be the mark `0`.
    pub open spec fn times_from_offset(self) -> bool {
        &&& self.delta_accum >= self.base_offset
        &&& forall|i: int|
            0 <= i < self.notes.len() ==> {
                &&& #[trigger] self.notes[i].start >= self.base_offset
                &&& self.notes[i].end == 0 || self.notes[i].end >= self.base_offset
            }
    }
}

/// `last_open` is the latest still-held note of the key, and there is
/// none exactly when no note of the key is held.
pub proof fn lemma_last_open(notes: Seq<Note>, key: u8)
    ensures
        match last_open(notes, key) {
            Some(i) => {
                &&& 0 <= i < notes.len()
                &&& holds_key(notes[i], key)
                &&& forall|j: int| i < j < notes.len() ==> !holds_key(#[trigger] notes[j], key)
            },
            None => forall|j: int| 0 <= j < notes.len() ==> !holds_key(#[trigger] notes[j], key),
        },
    decreases notes.len(),
{
    if notes.len() > 0 && !holds_key(notes.last(), key) {
        lemma_last_open(notes.drop_last(), key);
        let prefix = notes.drop_last();
        assert forall|j: int| 0 <= j < prefix.len() implies prefix[j] == notes[j] by {}
    }
}

/// A key press of velocity zero is a key release: both give the same
/// handler state, whatever the channels and the release velocity.
pub proof fn law_silent_press_is_release(
    h: HandlerView,
    delta: u32,
    ch: u8,
    other_ch: u8,
    note: u8,
    velocity: u8,
)
    ensures
        h.after_midi_event(delta, MidiEvent::NoteOn { ch, note, velocity: 0 })
            == h.after_midi_event(delta, MidiEvent::NoteOff { ch: other_ch, note, velocity }),
{
}

/// Within a track, song time never runs backwards: a channel message moves
/// it forward or leaves it, and meta events and the header leave it alone.
pub proof fn law_time_never_decreases(
    h: HandlerView,
    delta: u32,
    event: MidiEvent,
    meta: MetaEvent,
    data: Seq<u8>,
    time_base: u16,
)
    ensures
        h.after_midi_event(delta, event).delta_accum >= h.delta_accum,
        h.after_meta_event(meta, data).delta_accum == h.delta_accum,
        h.after_header(time_base).delta_accum == h.delta_accum,
{
}

/// More ticks between two events never give an earlier time.
pub proof fn law_more_ticks_later_time(h: HandlerView, d1: u32, d2: u32)
    requires
        d1 <= d2,
    ensures
        h.advanced(d1).delta_accum <= h.advanced(d2).delta_accum,
{
    let tpm = h.current_bpm * h.resolution;
    if tpm != 0 {
        assert(NANOS_PER_MINUTE * d1 <= NANOS_PER_MINUTE * d2) by (nonlinear_arith)
            requires
                d1 <= d2,
        ;
        lemma_div_monotone(NANOS_PER_MINUTE * d1, NANOS_PER_MINUTE * d2, tpm);
    }
}

proof fn lemma_div_monotone(a: int, b: int, d: int)
    requires
        0 <= a <= b,
        d > 0,
    ensures
        a / d <= b / d,
{
    vstd::arithmetic::div_mod::lemma_div_is_ordered(a, b, d);
}

/// The song only grows, and a channel message never touches what a
/// recorded note says of its key, channel, start and velocity; a note that
/// has ended stays as it is, and at most one note changes.
pub proof fn law_recorded_notes_persist(h: HandlerView, delta: u32, event: MidiEvent)
    ensures
        ({
            let n = h.after_midi_event(delta, event).notes;
            &&& n.len() == h.notes.len() || n.len() == h.notes.len() + 1
            &&& forall|i: int|
                0 <= i < h.notes.len() ==> {
                    &&& #[trigger] n[i].key == h.notes[i].key
                    &&& n[i].channel == h.notes[i].channel
                    &&& n[i].start == h.notes[i].start
                    &&& n[i].velocity == h.notes[i].velocity
                    &&& !h.notes[i].is_open() ==> n[i] == h.notes[i]
                }
            &&& forall|i: int, j: int|
                0 <= i < j < h.notes.len() && n[i] != h.notes[i] ==> n[j] == h.notes[j]
        }),
{
    lemma_last_open(h.notes, event_key(event));
}

/// The key a channel message names, where it names one.
pub open spec fn event_key(event: MidiEvent) -> u8 {
    match event {
        MidiEvent::NoteOff { note, .. } => note,
        MidiEvent::NoteOn { note, .. } => note,
        MidiEvent::PolyphonicKeyPressure { note, .. } => note,
        _ => 0,
    }
}

/// A release ends the latest held note of its key at the release time and
/// changes no other note; without a held note of that key it changes
/// nothing.
pub proof fn law_release_ends_latest_held(notes: Seq<Note>, key: u8, time: u64)
    ensures
        (exists|i: int| 0 <= i < notes.len() && holds_key(#[trigger] notes[i], key)) ==> exists|i: int|
            {
                &&& 0 <= i < notes.len()
                &&& holds_key(#[trigger] notes[i], key)
                &&& forall|j: int| i < j < notes.len() ==> !holds_key(#[trigger] notes[j], key)
                &&& release(notes, key, time) == notes.update(i, notes[i].released_at(time))
            },
        !(exists|i: int| 0 <= i < notes.len() && holds_key(#[trigger] notes[i], key)) ==> release(
            notes,
            key,
            time,
        ) == notes,
{
    lemma_last_open(notes, key);
    if let Some(i) = last_open(notes, key) {
        assert(holds_key(notes[i], key));
    }
}

/// Every time the handler holds lies at or after the start offset, from a
/// new handler on and through every event and every change of track; so a
/// note's end of `0` always means the note is still held.
pub proof fn law_times_stay_from_offset(
    h: HandlerView,
    delta: u32,
    event: MidiEvent,
    meta: MetaEvent,
    data: Seq<u8>,
    time_base: u16,
)
    requires
        h.times_from_offset(),
    ensures
        h.after_midi_event(delta, event).times_from_offset(),
        h.after_meta_event(meta, data).times_from_offset(),
        h.after_track_change().times_from_offset(),
        h.after_header(time_base).times_from_offset(),
{
    let a = h.advanced(delta);
    let t = a.delta_accum;
    let k = event_key(event);
    lemma_last_open(a.notes, k);
    let r = release(a.notes, k, t);
    assert(r.len() == a.notes.len());
    assert forall|i: int| 0 <= i < r.len() implies {
        &&& #[trigger] r[i].start >= h.base_offset
        &&& r[i].end == 0 || r[i].end >= h.base_offset
    } by {
        assert(h.notes[i].start >= h.base_offset);
    }
    assert(a.with_release(k, t).times_from_offset());
    match event {
        MidiEvent::NoteOn { ch, note, velocity } => {
            if velocity != 0 {
                let n = a.notes.push(Note { key: note, channel: ch, start: t, end: 0, velocity });
                assert forall|i: int| 0 <= i < n.len() implies {
                    &&& #[trigger] n[i].start >= h.base_offset
                    &&& n[i].end == 0 || n[i].end >= h.base_offset
                } by {
                    if i < h.notes.len() {
                        assert(h.notes[i].start >= h.base_offset);
                    }
                }
            } else {
                assert(h.after_midi_event(delta, event) == a.with_release(k, t));
            }
        },
        MidiEvent::NoteOff { .. } => {
            assert(h.after_midi_event(delta, event) == a.with_release(k, t));
        },
        _ => {},
    }
}

/// Each call of the reader keeps every time at or after the start offset
/// and leaves the offset as it is.
pub proof fn law_step_keeps_offset(h: HandlerView, step: HandlerStep)
    requires
        h.times_from_offset(),
    ensures
        h.after_step(step).times_from_offset(),
        h.after_step(step).base_offset == h.base_offset,
{
    match step {
        HandlerStep::Header { time_base } => law_times_stay_from_offset(h, 0, MidiEvent::Unknown { ch: 0 }, MetaEvent::Marker, Seq::empty(), time_base),
        HandlerStep::Meta { meta, data } => law_times_stay_from_offset(h, 0, MidiEvent::Unknown { ch: 0 }, meta, data, 0),
        HandlerStep::Midi { delta, message } => law_times_stay_from_offset(h, delta, message, MetaEvent::Marker, Seq::empty(), 0),
        HandlerStep::TrackChange => law_times_stay_from_offset(h, 0, MidiEvent::Unknown { ch: 0 }, MetaEvent::Marker, Seq::empty(), 0),
    }
}

/// Whatever calls a reader makes on a new handler, in any order and over
/// any number of tracks, the offset stays 3 s and every time the handler
/// holds, of the song and of each note, lies at or after it (an end of `0`
/// marking a note still held).
pub proof fn law_offset_holds_over_any_calls(steps: Seq<HandlerStep>)
    ensures
        fresh_handler().after_steps(steps).times_from_offset(),
        fresh_handler().after_steps(steps).base_offset == BASE_OFFSET_NANOS,
    decreases steps.len(),
{
    if steps.len() > 0 {
        law_offset_holds_over_any_calls(steps.drop_last());
        law_step_keeps_offset(fresh_handler().after_steps(steps.drop_last()), steps.last());
    }
}

/// Within a track each call keeps the notes in time order: starts in the
/// order recorded, and every ended note ending at or after its start.
pub proof fn law_step_keeps_time_order(h: HandlerView, step: HandlerStep)
    requires
        h.notes_in_time_order(),
        !(step is TrackChange),
    ensures
        h.after_step(step).notes_in_time_order(),
{
    if let HandlerStep::Midi { delta, message } = step {
        let event = message;
        let a = h.advanced(delta);
        let t = a.delta_accum;
        assert(t >= h.delta_accum);
        let k = event_key(event);
        lemma_last_open(a.notes, k);
        let r = release(a.notes, k, t);
        assert(r.len() == a.notes.len());
        assert forall|i: int| 0 <= i < r.len() implies {
            &&& r[i].start == a.notes[i].start
            &&& #[trigger] r[i].start <= t
            &&& r[i].end == 0 || (r[i].start <= r[i].end && r[i].end <= t)
        } by {
            assert(h.notes[i].start <= h.delta_accum);
        }
        assert forall|i: int, j: int| 0 <= i < j < r.len() implies #[trigger] r[i].start
            <= #[trigger] r[j].start by {
            assert(h.notes[i].start <= h.notes[j].start);
            assert(r[i].start == a.notes[i].start);
            assert(r[j].start == a.notes[j].start);
        }
        match event {
            MidiEvent::NoteOn { ch, note, velocity } => {
                if velocity != 0 {
                    let n = a.notes.push(
                        Note { key: note, channel: ch, start: t, end: 0, velocity },
                    );
                    assert forall|i: int, j: int| 0 <= i < j < n.len() implies #[trigger] n[i].start
                        <= #[trigger] n[j].start by {
                        assert(h.notes[i].start <= h.delta_accum);
                        if j < h.notes.len() {
                            assert(h.notes[i].start <= h.notes[j].start);
                        }
                    }
                    assert forall|i: int| 0 <= i < n.len() implies {
                        &&& #[trigger] n[i].start <= t
                        &&& n[i].end == 0 || (n[i].start <= n[i].end && n[i].end <= t)
                    } by {
                        if i < h.notes.len() {
                            assert(h.notes[i].start <= h.delta_accum);
                        }
                    }
                }
            },
            _ => {},
        }
    }
}

/// A new handler has its (no) notes in time order.
pub proof fn law_fresh_handler_in_time_order()
    ensures
        fresh_handler().notes_in_time_order(),
{
}

/// Within one track, whatever headers, meta events and channel messages
/// the reader delivers, the notes come out in time order: each starts no
/// earlier than the one recorded before it, and each ended note ends at or
/// after its start. A new handler is such a state.
pub proof fn law_notes_in_time_order_within_track(h: HandlerView, steps: Seq<HandlerStep>)
    requires
        h.notes_in_time_order(),
        within_one_track(steps),
    ensures
        h.after_steps(steps).notes_in_time_order(),
    decreases steps.len(),
{
    if steps.len() > 0 {
        let p = steps.drop_last();
        assert(within_one_track(p)) by {
            assert forall|i: int| 0 <= i < p.len() implies !(#[trigger] p[i] is TrackChange) by {
                assert(p[i] == steps[i]);
            }
        }
        law_notes_in_time_order_within_track(h, p);
        assert(!(steps[steps.len() - 1] is TrackChange));
        law_step_keeps_time_order(h.after_steps(p), steps.last());
    }
}

/// Finds the latest still-held note of key `key`.
fn find_last_open(notes: &Vec<Note>, key: u8) -> (r: Option<usize>)
    ensures
        match r {
            Some(i) => i < notes.len() && last_open(notes@, key) == Some(i as int),
            None => last_open(notes@, key) is None,
        },
{
    let mut i = notes.len();
    while i > 0
        invariant
            i <= notes.len(),
            forall|j: int| i <= j < notes.len() ==> !holds_key(#[trigger] notes@[j], key),
        decreases i,
    {
        let n = notes[i - 1];
        if n.key == key && n.end == 0 {
            proof {
                lemma_last_open(notes@, key);
                assert(holds_key(notes@[i - 1], key));
                if let Some(k) = last_open(notes@, key) {
                    if k < i - 1 {
                        assert(!holds_key(notes@[i - 1], key));
                    } else if k > i - 1 {
                        assert(!holds_key(notes@[k], key));
                    }
                }
            }
            return Some(i - 1);
        }
        i = i - 1;
    }
    proof {
        lemma_last_open(notes@, key);
        if let Some(k) = last_open(notes@, key) {
            assert(!holds_key(notes@[k], key));
        }
    }
    None
}

impl MidiFileHandler {
    /// A handler with no notes, the default tempo, a 1/1 signature and the
    /// time of a fresh track.
    pub fn new() -> (h: Self)
        ensures
            h@ == fresh_handler(),
    {
        let mut h = MidiFileHandler {
            song: MidiSong::default(),
            delta_accum: 0,
            current_bpm: DEFAULT_BPM,
            resolution: 0,
            signature: (1, 1),
            base_offset: BASE_OFFSET_NANOS,
        };
        h.reset_delta_accum();
        h
    }

    /// Whether some note of key `key` is still held, so that a release of
    /// that key has a note to end.
    pub fn holds_note(&self, key: u8) -> (b: bool)
        ensures
            b == exists|i: int| 0 <= i < self.song.notes@.len() && holds_key(#[trigger] self.song.notes@[i], key),
    {
        proof {
            lemma_last_open(self.song.notes@, key);
        }
        match find_last_open(&self.song.notes, key) {
            Some(i) => {
                assert(holds_key(self.song.notes@[i as int], key));
                true
            },
            None => false,
        }
    }

    /// Ends, at `time`, the latest still-held note of key `note`.
    pub fn end_note(&mut self, note: u8, time: u64)
        ensures
            final(self)@ == old(self)@.with_release(note, time),
    {
        match find_last_open(&self.song.notes, note) {
            Some(i) => {
                let mut n = self.song.notes[i];
                n.end = time;
                self.song.notes.set(i, n);
            },
            None => {},
        }
    }

    /// Advances the song time by `delta` ticks and returns the new time.
    pub fn time_for(&mut self, delta: u32) -> (t: u64)
        ensures
            final(self)@ == old(self)@.advanced(delta),
            t == final(self).delta_accum,
    {
        let bpm = self.current_bpm as u64;
        let resolution = self.resolution as u64;
        assert(bpm * resolution <= 0xffff_ffff * 0xffff) by (nonlinear_arith)
            requires
                bpm <= 0xffff_ffff,
                resolution <= 0xffff,
        ;
        let ticks_per_minute: u64 = bpm * resolution;
        let offset: u64 = if ticks_per_minute == 0 {
            u64::MAX
        } else {
            let d = delta as u128;
            assert(60_000_000_000 * d <= 60_000_000_000 * 0xffff_ffff) by (nonlinear_arith)
                requires
                    d <= 0xffff_ffff,
            ;
            let span: u128 = (NANOS_PER_MINUTE as u128 * d) / (ticks_per_minute as u128);
            if span > u64::MAX as u128 {
                u64::MAX
            } else {
                span as u64
            }
        };
        self.delta_accum = self.delta_accum.saturating_add(offset);
        self.delta_accum
    }

    /// Sets the song time back to the start offset.
    pub fn reset_delta_accum(&mut self)
        ensures
            final(self)@ == old(self)@.after_track_change(),
    {
        self.delta_accum = self.base_offset;
    }

    /// Takes the file's ticks per quarter note from its header.
    pub fn header(&mut self, format: u16, track: u16, time_base: u16)
        ensures
            final(self)@ == old(self)@.after_header(time_base),
    {
        self.resolution = time_base;
    }

    /// Reads a meta event: a tempo or a time signature.
    pub fn meta_event(&mut self, delta_time: u32, event: &MetaEvent, data: &Vec<u8>)
        requires
            meta_event_readable(*event, data@),
        ensures
            final(self)@ == old(self)@.after_meta_event(*event, data@),
    {
        match event {
            MetaEvent::SetTempo => {
                let micros_per_quarter: u32 = data[0] as u32 * 65536 + data[1] as u32 * 256
                    + data[2] as u32;
                self.current_bpm = MICROS_PER_MINUTE / micros_per_quarter;
            },
            MetaEvent::TimeSignature => {
                self.signature = (data[0], data[1]);
            },
            _ => {},
        }
    }

    /// Reads a channel message that comes `delta_time` ticks after the
    /// previous event of its track.
    pub fn midi_event(&mut self, delta_time: u32, event: &MidiEvent)
        ensures
            final(self)@ == old(self)@.after_midi_event(delta_time, *event),
    {
        let t = self.time_for(delta_time);
        match event {
            MidiEvent::NoteOn { ch, note, velocity } => {
                if *velocity == 0 {
                    self.end_note(*note, t);
                } else {
                    self.song.notes.push(
                        Note { key: *note, channel: *ch, start: t, end: 0, velocity: *velocity },
                    );
                }
            },
            MidiEvent::NoteOff { ch, note, velocity } => {
                self.end_note(*note, t);
            },
            _ => {},
        }
    }

    /// A new track begins.
    pub fn track_change(&mut self)
        ensures
            final(self)@ == old(self)@.after_track_change(),
    {
        self.reset_delta_accum();
    }
}

} // verus!
