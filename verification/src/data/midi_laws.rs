use vstd::prelude::*;

use crate::data::midi::{
    holds_key, lemma_last_open, HandlerView, MetaEvent, MidiEvent, NANOS_PER_MINUTE,
};
use crate::data::notes::Note;

verus! {

/// Every channel message, whatever its kind, moves song time on by the
/// span of its ticks: at `t = bpm * resolution` ticks per minute, the time
/// grows by the `n` with `n * t <= 60e9 * delta < (n + 1) * t` (so by
/// nothing for zero ticks), unless that reaches `u64::MAX`, where it stays;
/// with no ticks per minute the time becomes `u64::MAX`. Tempo,
/// resolution, signature, offset and the song's length and tempo fields do
/// not change.
pub proof fn law_every_message_moves_time(h: HandlerView, delta: u32, event: MidiEvent)
    ensures
        ({
            let n = h.after_midi_event(delta, event);
            let t = h.current_bpm * h.resolution;
            &&& n.current_bpm == h.current_bpm
            &&& n.resolution == h.resolution
            &&& n.signature == h.signature
            &&& n.base_offset == h.base_offset
            &&& n.length == h.length
            &&& n.bpm == h.bpm
            &&& n.delta_accum >= h.delta_accum
            &&& t == 0 ==> n.delta_accum == u64::MAX
            &&& t > 0 && n.delta_accum < u64::MAX ==> {
                &&& (n.delta_accum - h.delta_accum) * t <= NANOS_PER_MINUTE * delta
                &&& NANOS_PER_MINUTE * delta < (n.delta_accum - h.delta_accum + 1) * t
            }
        }),
{
    let t = h.current_bpm * h.resolution;
    if t > 0 {
        let x = NANOS_PER_MINUTE * delta;
        assert(x >= 0) by (nonlinear_arith)
            requires
                x == NANOS_PER_MINUTE * delta,
                delta >= 0,
        ;
        vstd::arithmetic::div_mod::lemma_fundamental_div_mod(x, t);
        vstd::arithmetic::div_mod::lemma_mod_pos_bound(x, t);
        let q = x / t;
        assert(q * t <= x < (q + 1) * t) by (nonlinear_arith)
            requires
                x == t * q + x % t,
                0 <= x % t < t,
        ;
    }
}

/// A key press with a velocity adds exactly one note at the end of the
/// song: of that key, channel and velocity, starting at the time the
/// message is read and not yet ended; the notes before it stay as they
/// were.
pub proof fn law_press_adds_one_note(h: HandlerView, delta: u32, ch: u8, key: u8, velocity: u8)
    requires
        velocity != 0,
    ensures
        ({
            let n = h.after_midi_event(delta, MidiEvent::NoteOn { ch, note: key, velocity });
            &&& n.notes.len() == h.notes.len() + 1
            &&& forall|i: int| 0 <= i < h.notes.len() ==> #[trigger] n.notes[i] == h.notes[i]
            &&& n.notes.last() == (Note {
                key,
                channel: ch,
                start: n.delta_accum,
                end: 0,
                velocity,
            })
        }),
{
}

/// A key release, or a key press of velocity zero, ends the latest held
/// note of its key at the time the message is read, and changes no other
/// note; with no held note of that key no note changes.
pub proof fn law_release_ends_latest_note(
    h: HandlerView,
    delta: u32,
    ch: u8,
    key: u8,
    velocity: u8,
    silent_press: bool,
)
    ensures
        ({
            let e = if silent_press {
                MidiEvent::NoteOn { ch, note: key, velocity: 0 }
            } else {
                MidiEvent::NoteOff { ch, note: key, velocity }
            };
            let n = h.after_midi_event(delta, e);
            &&& n.notes.len() == h.notes.len()
            &&& (forall|i: int| 0 <= i < h.notes.len() ==> !holds_key(#[trigger] h.notes[i], key))
                ==> n.notes == h.notes
            &&& (exists|i: int| 0 <= i < h.notes.len() && holds_key(#[trigger] h.notes[i], key))
                ==> exists|i: int|
                {
                    &&& 0 <= i < h.notes.len()
                    &&& holds_key(#[trigger] h.notes[i], key)
                    &&& forall|j: int| i < j < h.notes.len() ==> !holds_key(#[trigger] h.notes[j], key)
                    &&& n.notes[i] == (Note { end: n.delta_accum, ..h.notes[i] })
                    &&& forall|j: int| 0 <= j < h.notes.len() && j != i ==> #[trigger] n.notes[j] == h.notes[j]
                }
        }),
{
    lemma_last_open(h.notes, key);
}

/// Channel messages other than key presses and releases leave the notes as
/// they are.
pub proof fn law_other_messages_keep_notes(h: HandlerView, delta: u32, event: MidiEvent)
    requires
        !(event is NoteOn),
        !(event is NoteOff),
    ensures
        h.after_midi_event(delta, event).notes == h.notes,
{
}

/// A tempo event sets the tempo to the whole beats per minute of its
/// microseconds per quarter note `m` (the `b` with `b * m <= 60e6 <
/// (b + 1) * m`), a time signature event records its first two bytes, and
/// any other meta event changes nothing; none of them touches the notes,
/// the time, the resolution or the offset, and only a tempo event changes
/// the tempo.
pub proof fn law_meta_events(h: HandlerView, event: MetaEvent, data: Seq<u8>)
    requires
        event is SetTempo ==> data.len() >= 3 && data[0] * 65536 + data[1] * 256 + data[2] != 0,
        event is TimeSignature ==> data.len() >= 2,
    ensures
        ({
            let n = h.after_meta_event(event, data);
            &&& n.notes == h.notes
            &&& n.delta_accum == h.delta_accum
            &&& n.resolution == h.resolution
            &&& n.base_offset == h.base_offset
            &&& n.length == h.length
            &&& n.bpm == h.bpm
            &&& !(event is SetTempo) ==> n.current_bpm == h.current_bpm
            &&& !(event is TimeSignature) ==> n.signature == h.signature
            &&& !(event is SetTempo) && !(event is TimeSignature) ==> n == h
            &&& event is TimeSignature ==> n.signature == (data[0], data[1])
            &&& event is SetTempo ==> {
                let m = data[0] * 65536 + data[1] * 256 + data[2];
                &&& n.current_bpm * m <= 60_000_000
                &&& 60_000_000 < (n.current_bpm + 1) * m
            }
        }),
{
    if event is SetTempo {
        let m = data[0] * 65536 + data[1] * 256 + data[2];
        assert(0 < m <= 16777215) by (nonlinear_arith)
            requires
                m == data[0] * 65536 + data[1] * 256 + data[2],
                m != 0,
                0 <= data[0] <= 255,
                0 <= data[1] <= 255,
                0 <= data[2] <= 255,
        ;
        vstd::arithmetic::div_mod::lemma_fundamental_div_mod(60_000_000, m);
        vstd::arithmetic::div_mod::lemma_mod_pos_bound(60_000_000, m);
        let b = 60_000_000int / m;
        assert(0 <= b <= 60_000_000) by {
            vstd::arithmetic::div_mod::lemma_div_pos_is_pos(60_000_000, m);
            vstd::arithmetic::div_mod::lemma_div_is_ordered_by_denominator(60_000_000, 1, m);
        }
        assert(b * m <= 60_000_000 < (b + 1) * m) by (nonlinear_arith)
            requires
                60_000_000 == m * b + 60_000_000int % m,
                0 <= 60_000_000int % m < m,
        ;
    }
}

/// A new track only restarts song time at the offset: the tempo, the
/// resolution, the signature and the notes read so far all carry over.
pub proof fn law_track_change_only_restarts_time(h: HandlerView)
    ensures
        ({
            let n = h.after_track_change();
            &&& n.delta_accum == h.base_offset
            &&& n.current_bpm == h.current_bpm
            &&& n.resolution == h.resolution
            &&& n.signature == h.signature
            &&& n.notes == h.notes
            &&& n.base_offset == h.base_offset
            &&& n.length == h.length
            &&& n.bpm == h.bpm
        }),
{
}

/// The tempo a track sets stays in force for the next track: a key press
/// read after a change of track, `delta` ticks into it, starts at the
/// offset plus the span of those ticks at that tempo.
pub proof fn law_tempo_carries_across_tracks(
    h: HandlerView,
    data: Seq<u8>,
    delta: u32,
    ch: u8,
    key: u8,
    velocity: u8,
)
    requires
        data.len() >= 3,
        data[0] * 65536 + data[1] * 256 + data[2] != 0,
        velocity != 0,
    ensures
        ({
            let tempo = h.after_meta_event(MetaEvent::SetTempo, data);
            let n = tempo.after_track_change().after_midi_event(
                delta,
                MidiEvent::NoteOn { ch, note: key, velocity },
            );
            n.current_bpm == tempo.current_bpm && n.notes.last().start == n.delta_accum
                && n.delta_accum == tempo.after_track_change().advanced(delta).delta_accum
        }),
{
    law_meta_events(h, MetaEvent::SetTempo, data);
    law_track_change_only_restarts_time(h.after_meta_event(MetaEvent::SetTempo, data));
}

} // verus!
