use keyfall::data::midi::MidiFileHandler;
use keyfall::{MetaEvent, MidiEvent, Note, BASE_OFFSET_NANOS, DEFAULT_BPM};

fn handler_480() -> MidiFileHandler {
    let mut h = MidiFileHandler::new();
    h.header(1, 2, 480);
    h
}

fn press(note: u8, velocity: u8) -> MidiEvent {
    MidiEvent::NoteOn { ch: 0, note, velocity }
}

fn release(note: u8) -> MidiEvent {
    MidiEvent::NoteOff { ch: 0, note, velocity: 64 }
}

#[test]
fn new_handler_starts_at_offset() {
    let h = MidiFileHandler::new();
    assert_eq!(h.delta_accum, 3_000_000_000);
    assert_eq!(h.base_offset, BASE_OFFSET_NANOS);
    assert_eq!(h.current_bpm, DEFAULT_BPM);
    assert_eq!(h.resolution, 0);
    assert_eq!(h.signature, (1, 1));
    assert!(h.song.notes.is_empty());
    assert_eq!(h.song.length, 0);
    assert_eq!(h.song.bpm, 0);
}

#[test]
fn header_sets_resolution() {
    let h = handler_480();
    assert_eq!(h.resolution, 480);
}

#[test]
fn one_beat_at_120_bpm_is_half_a_second() {
    let mut h = handler_480();
    assert_eq!(h.time_for(480), 3_500_000_000);
    assert_eq!(h.time_for(240), 3_750_000_000);
    assert_eq!(h.delta_accum, 3_750_000_000);
}

#[test]
fn tick_lengths_round_down() {
    let mut h = MidiFileHandler::new();
    h.header(0, 1, 7);
    // 60e9 / (120 * 7) = 71428571.43 ns per tick
    assert_eq!(h.time_for(1), 3_000_000_000 + 71_428_571);
}

#[test]
fn zero_resolution_makes_time_unbounded() {
    let mut h = MidiFileHandler::new();
    assert_eq!(h.time_for(10), u64::MAX);
    assert_eq!(h.time_for(0), u64::MAX);
}

#[test]
fn zero_ticks_keep_the_time() {
    let mut h = handler_480();
    assert_eq!(h.time_for(0), 3_000_000_000);
}

#[test]
fn press_and_release_make_a_note() {
    let mut h = handler_480();
    h.midi_event(480, &MidiEvent::NoteOn { ch: 2, note: 60, velocity: 100 });
    h.midi_event(960, &MidiEvent::NoteOff { ch: 2, note: 60, velocity: 0 });
    assert_eq!(
        h.song.notes,
        vec![Note { key: 60, channel: 2, start: 3_500_000_000, end: 4_500_000_000, velocity: 100 }]
    );
}

#[test]
fn silent_press_is_a_release() {
    let mut a = handler_480();
    let mut b = handler_480();
    for h in [&mut a, &mut b] {
        h.midi_event(0, &press(64, 90));
    }
    a.midi_event(240, &MidiEvent::NoteOn { ch: 3, note: 64, velocity: 0 });
    b.midi_event(240, &MidiEvent::NoteOff { ch: 9, note: 64, velocity: 17 });
    assert_eq!(a.song.notes, b.song.notes);
    assert_eq!(a.delta_accum, b.delta_accum);
    assert_eq!(a.song.notes[0].end, 3_250_000_000);
}

#[test]
fn release_ends_the_latest_held_note_of_its_key() {
    let mut h = handler_480();
    h.midi_event(0, &press(60, 80));
    h.midi_event(480, &press(62, 80));
    h.midi_event(480, &press(60, 70));
    h.midi_event(480, &release(60));
    assert_eq!(h.song.notes[0].end, 0);
    assert_eq!(h.song.notes[1].end, 0);
    assert_eq!(h.song.notes[2].end, 4_500_000_000);
    h.midi_event(480, &release(60));
    assert_eq!(h.song.notes[0].end, 5_000_000_000);
    assert_eq!(h.song.notes[2].end, 4_500_000_000);
}

#[test]
fn release_without_held_note_changes_no_note() {
    let mut h = handler_480();
    h.midi_event(0, &press(60, 80));
    h.midi_event(480, &release(61));
    assert_eq!(h.song.notes.len(), 1);
    assert_eq!(h.song.notes[0].end, 0);
    assert_eq!(h.delta_accum, 3_500_000_000);
}

#[test]
fn end_note_direct() {
    let mut h = handler_480();
    h.midi_event(0, &press(40, 80));
    h.end_note(40, 9);
    assert_eq!(h.song.notes[0].end, 9);
    h.end_note(40, 11);
    assert_eq!(h.song.notes[0].end, 9);
}

#[test]
fn other_messages_only_advance_time() {
    let mut h = handler_480();
    h.midi_event(0, &press(40, 80));
    h.midi_event(480, &MidiEvent::ControlChange { ch: 0, control: 7, data: 100 });
    h.midi_event(480, &MidiEvent::PolyphonicKeyPressure { ch: 0, note: 40, velocity: 3 });
    h.midi_event(480, &MidiEvent::PitchBendChange { ch: 0, data: -5 });
    assert_eq!(h.song.notes.len(), 1);
    assert_eq!(h.song.notes[0].end, 0);
    assert_eq!(h.delta_accum, 4_500_000_000);
}

#[test]
fn tempo_event_sets_bpm() {
    let mut h = handler_480();
    h.meta_event(0, &MetaEvent::SetTempo, &vec![0x07, 0xA1, 0x20]);
    assert_eq!(h.current_bpm, 120);
    h.meta_event(0, &MetaEvent::SetTempo, &vec![0x09, 0x27, 0xC0]);
    assert_eq!(h.current_bpm, 100);
    // 700000 us per quarter: 85.7 bpm, kept whole
    h.meta_event(0, &MetaEvent::SetTempo, &vec![0x0A, 0xAE, 0x60]);
    assert_eq!(h.current_bpm, 85);
    h.meta_event(0, &MetaEvent::SetTempo, &vec![0xFF, 0xFF, 0xFF]);
    assert_eq!(h.current_bpm, 3);
}

#[test]
fn tempo_changes_tick_length_and_meta_delta_is_ignored() {
    let mut h = handler_480();
    h.meta_event(480, &MetaEvent::SetTempo, &vec![0x0F, 0x42, 0x40]);
    assert_eq!(h.current_bpm, 60);
    assert_eq!(h.delta_accum, 3_000_000_000);
    h.midi_event(480, &press(50, 1));
    assert_eq!(h.song.notes[0].start, 4_000_000_000);
}

#[test]
fn time_signature_is_recorded() {
    let mut h = handler_480();
    h.meta_event(0, &MetaEvent::TimeSignature, &vec![3, 4, 24, 8]);
    assert_eq!(h.signature, (3, 4));
}

#[test]
fn other_meta_events_change_nothing() {
    let mut h = handler_480();
    h.meta_event(100, &MetaEvent::KeySignature, &vec![0, 0]);
    h.meta_event(100, &MetaEvent::EndOfTrack, &vec![]);
    h.meta_event(100, &MetaEvent::Unknown { event_type: 0x60 }, &vec![]);
    assert_eq!(h.current_bpm, 120);
    assert_eq!(h.signature, (1, 1));
    assert_eq!(h.delta_accum, 3_000_000_000);
}

#[test]
fn track_change_restarts_time() {
    let mut h = handler_480();
    h.midi_event(4800, &press(30, 1));
    assert_eq!(h.delta_accum, 8_000_000_000);
    h.track_change();
    assert_eq!(h.delta_accum, 3_000_000_000);
    h.midi_event(0, &press(31, 1));
    assert_eq!(h.song.notes[1].start, 3_000_000_000);
    h.time_for(480);
    h.reset_delta_accum();
    assert_eq!(h.delta_accum, 3_000_000_000);
}

#[test]
fn times_stay_from_offset() {
    let mut h = handler_480();
    h.midi_event(10, &press(1, 1));
    h.track_change();
    h.midi_event(0, &release(1));
    h.midi_event(0, &press(2, 1));
    for n in &h.song.notes {
        assert!(n.start >= h.base_offset);
        assert!(n.end == 0 || n.end >= h.base_offset);
    }
    assert!(h.delta_accum >= h.base_offset);
}

#[test]
fn more_ticks_later_time() {
    let mut a = handler_480();
    let mut b = handler_480();
    assert!(a.time_for(100) <= b.time_for(101));
}

#[test]
fn recorded_notes_persist() {
    let mut h = handler_480();
    h.midi_event(0, &press(10, 5));
    h.midi_event(10, &release(10));
    let before = h.song.notes.clone();
    h.midi_event(10, &release(10));
    h.midi_event(10, &press(10, 6));
    assert_eq!(h.song.notes[0], before[0]);
    assert_eq!(h.song.notes.len(), 2);
}

#[test]
fn holds_note_tells_whether_a_release_has_a_note() {
    let mut h = handler_480();
    assert!(!h.holds_note(60));
    h.midi_event(0, &press(60, 80));
    assert!(h.holds_note(60));
    assert!(!h.holds_note(61));
    h.midi_event(10, &release(60));
    assert!(!h.holds_note(60));
}

#[test]
fn notes_of_a_track_come_out_in_time_order() {
    let mut h = handler_480();
    h.midi_event(0, &press(60, 80));
    h.midi_event(100, &press(62, 80));
    h.meta_event(0, &MetaEvent::SetTempo, &vec![0x0F, 0x42, 0x40]);
    h.midi_event(0, &release(60));
    h.midi_event(300, &press(60, 1));
    h.midi_event(7, &MidiEvent::NoteOn { ch: 0, note: 62, velocity: 0 });
    h.header(0, 1, 96);
    h.midi_event(5, &release(60));
    let notes = &h.song.notes;
    for i in 0..notes.len() {
        for j in i + 1..notes.len() {
            assert!(notes[i].start <= notes[j].start);
        }
        assert!(notes[i].end == 0 || notes[i].start <= notes[i].end);
        assert!(notes[i].end <= h.delta_accum);
    }
    assert_eq!(notes.len(), 3);
    assert!(notes.iter().all(|n| n.end != 0));
}
