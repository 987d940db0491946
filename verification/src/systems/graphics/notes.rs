use vstd::prelude::*;

use crate::data::notes::{Note, NoteComponent};

verus! {

/// How long a note falls before it reaches the keyboard (1 s).
pub const SCROLL_DELAY_NANOS: u64 = 1_000_000_000;

/// How long a note stays on screen after its end (0.1 s).
pub const DESTROY_DELAY_NANOS: u64 = 100_000_000;

/// `a + b`, held at `u64::MAX` where it would not fit.
pub open spec fn clamped_sum(a: u64, b: u64) -> u64 {
    if a + b > u64::MAX {
        u64::MAX
    } else {
        (a + b) as u64
    }
}

/// `a - b`, held at `0` where it would be negative.
pub open spec fn clamped_difference(a: u64, b: u64) -> u64 {
    if a < b {
        0
    } else {
        (a - b) as u64
    }
}

/// A note of start `start` appears on a frame whose window is
/// `[lower, upper)`.
pub open spec fn in_window(start: u64, lower: u64, upper: u64) -> bool {
    lower <= start && start < upper
}

/// The notes that appear on a frame with window `[lower, upper)`, in song
/// order.
pub open spec fn notes_in_window(notes: Seq<Note>, lower: u64, upper: u64) -> Seq<Note> {
    notes.filter(|n: Note| in_window(n.start, lower, upper))
}

/// Moves the falling notes on screen.
pub struct NoteMoveSystem;

impl NoteMoveSystem {
    /// Signed time from `now` until the note has to be played: how far above
    /// the keyboard it still is.
    pub fn time_to_play(note: &NoteComponent, now: u64) -> (d: i128)
        ensures
            d == note.time - now,
    {
        note.time as i128 - now as i128
    }
}

/// Puts the notes of the song on screen when their time comes.
pub struct NoteSpawnSystem {
    last_spawn: u64,
}

impl View for NoteSpawnSystem {
    type V = u64;

    /// The time of the last note put on screen.
    closed spec fn view(&self) -> u64 {
        self.last_spawn
    }
}

impl Default for NoteSpawnSystem {
    fn default() -> (s: NoteSpawnSystem)
        ensures
            s@ == 0,
    {
        NoteSpawnSystem { last_spawn: 0 }
    }
}

impl NoteSpawnSystem {
    /// A note of time `note_time` may go on screen at time `time`: it lies
    /// more than the scroll delay before `time` and after the last note put
    /// on screen.
    pub fn can_spawn(&mut self, time: u64, note_time: u64, last_frame: u64) -> (b: bool)
        ensures
            b == (note_time + SCROLL_DELAY_NANOS < time && note_time > old(self)@),
            final(self)@ == old(self)@,
    {
        note_time as u128 + (SCROLL_DELAY_NANOS as u128) < time as u128 && note_time
            > self.last_spawn
    }

    /// The window of note starts that appear on the frame that ends at
    /// `now` and lasted `frame`: from the frame's start plus the scroll delay
    /// up to `now` plus the scroll delay, end excluded.
    pub fn spawn_window(now: u64, frame: u64) -> (w: (u64, u64))
        ensures
            w.1 == clamped_sum(now, SCROLL_DELAY_NANOS),
            w.0 == clamped_difference(w.1, frame),
    {
        let upper = now.saturating_add(SCROLL_DELAY_NANOS);
        let lower = upper.saturating_sub(frame);
        (lower, upper)
    }

    /// The notes to put on screen on the frame that ends at `now` and
    /// lasted `frame`, in song order.
    pub fn notes_to_spawn(notes: &Vec<Note>, now: u64, frame: u64) -> (r: Vec<Note>)
        ensures
            ({
                let (lower, upper) = (
                    clamped_difference(clamped_sum(now, SCROLL_DELAY_NANOS), frame),
                    clamped_sum(now, SCROLL_DELAY_NANOS),
                );
                r@ == notes_in_window(notes@, lower, upper)
            }),
    {
        let (lower, upper) = Self::spawn_window(now, frame);
        let mut r: Vec<Note> = Vec::new();
        let mut i: usize = 0;
        while i < notes.len()
            invariant
                i <= notes.len(),
                r@ == notes_in_window(notes@.take(i as int), lower, upper),
            decreases notes.len() - i,
        {
            let n = notes[i];
            proof {
                reveal_with_fuel(Seq::<_>::filter, 1);
                assert(notes@.take(i + 1).drop_last() == notes@.take(i as int));
            }
            if upper > n.start && n.start >= lower {
                r.push(n);
            }
            i = i + 1;
        }
        proof {
            assert(notes@.take(notes.len() as int) == notes@);
        }
        r
    }

    /// When a note that goes on screen is taken off again: a short while
    /// after its end.
    pub fn destroy_time(note: &Note) -> (t: u64)
        ensures
            t == clamped_sum(note.end, DESTROY_DELAY_NANOS),
    {
        note.end.saturating_add(DESTROY_DELAY_NANOS)
    }
}

/// Consecutive frames hand on their windows without gap or overlap: where a
/// frame of length `frame2` follows one that ended at `now1`, the second
/// window starts where the first ends, so a note whose start lies in either
/// goes on screen on exactly one of the two frames.
pub proof fn law_consecutive_frames_spawn_once(
    now1: u64,
    frame1: u64,
    frame2: u64,
    start: u64,
)
    requires
        now1 + frame2 + SCROLL_DELAY_NANOS <= u64::MAX,
    ensures
        ({
            let now2 = (now1 + frame2) as u64;
            let upper1 = clamped_sum(now1, SCROLL_DELAY_NANOS);
            let lower1 = clamped_difference(upper1, frame1);
            let upper2 = clamped_sum(now2, SCROLL_DELAY_NANOS);
            let lower2 = clamped_difference(upper2, frame2);
            &&& lower2 == upper1
            &&& !(in_window(start, lower1, upper1) && in_window(start, lower2, upper2))
            &&& lower1 <= start < upper2 ==> in_window(start, lower1, upper1) || in_window(
                start,
                lower2,
                upper2,
            )
        }),
{
}

/// The total length of the frames `frames`.
pub open spec fn total_length(frames: Seq<u64>) -> int
    decreases frames.len(),
{
    if frames.len() == 0 {
        0
    } else {
        total_length(frames.drop_last()) + frames.last()
    }
}

/// On how many of the frames `frames`, run one after another from time
/// `begin` (each ending where the next starts), a note of start `start`
/// goes on screen: frame `k` ends at `begin` plus the lengths of frames `0`
/// to `k`, and its window is the one [`NoteSpawnSystem::spawn_window`]
/// gives.
pub open spec fn spawn_count(begin: u64, frames: Seq<u64>, start: u64) -> int
    decreases frames.len(),
{
    if frames.len() == 0 {
        0
    } else {
        let now = (begin + total_length(frames)) as u64;
        let upper = clamped_sum(now, SCROLL_DELAY_NANOS);
        let lower = clamped_difference(upper, frames.last());
        spawn_count(begin, frames.drop_last(), start) + if in_window(start, lower, upper) {
            1int
        } else {
            0int
        }
    }
}

/// Over any number of frames run one after another from time `begin`, a
/// note goes on screen exactly once when its start lies between `begin`
/// plus the scroll delay and the end of the last frame plus the scroll
/// delay (end excluded), and never otherwise.
pub proof fn law_frames_spawn_each_note_once(begin: u64, frames: Seq<u64>, start: u64)
    requires
        begin + total_length(frames) + SCROLL_DELAY_NANOS <= u64::MAX,
    ensures
        spawn_count(begin, frames, start) == if begin + SCROLL_DELAY_NANOS <= start < begin
            + total_length(frames) + SCROLL_DELAY_NANOS {
            1int
        } else {
            0int
        },
    decreases frames.len(),
{
    if frames.len() > 0 {
        let p = frames.drop_last();
        assert(total_length(frames) == total_length(p) + frames.last());
        lemma_total_length_nonneg(p);
        law_frames_spawn_each_note_once(begin, p, start);
    }
}

proof fn lemma_total_length_nonneg(frames: Seq<u64>)
    ensures
        total_length(frames) >= 0,
    decreases frames.len(),
{
    if frames.len() > 0 {
        lemma_total_length_nonneg(frames.drop_last());
    }
}

/// The notes of a frame grow with the song one note at a time: no note of
/// an empty song appears, and a note added at the end of a song appears,
/// after those of the rest, exactly when its start lies in the window,
/// whatever its key, channel, end and velocity and whatever other notes
/// share its start.
pub proof fn law_window_grows_note_by_note(notes: Seq<Note>, n: Note, lower: u64, upper: u64)
    ensures
        notes_in_window(Seq::<Note>::empty(), lower, upper) == Seq::<Note>::empty(),
        notes_in_window(notes.push(n), lower, upper) == if lower <= n.start && n.start < upper {
            notes_in_window(notes, lower, upper).push(n)
        } else {
            notes_in_window(notes, lower, upper)
        },
{
    reveal_with_fuel(Seq::<_>::filter, 1);
    assert(notes.push(n).drop_last() == notes);
}

/// A frame puts on screen every note of the song whose start lies in its
/// window, and only notes of the song whose start lies in the window.
pub proof fn law_window_holds_exactly_its_notes(notes: Seq<Note>, lower: u64, upper: u64)
    ensures
        forall|i: int|
            0 <= i < notes.len() && lower <= notes[i].start && notes[i].start < upper
                ==> notes_in_window(notes, lower, upper).contains(#[trigger] notes[i]),
        forall|j: int|
            0 <= j < notes_in_window(notes, lower, upper).len() ==> {
                let x = #[trigger] notes_in_window(notes, lower, upper)[j];
                &&& lower <= x.start && x.start < upper
                &&& notes.contains(x)
            },
        notes_in_window(notes, lower, upper).len() <= notes.len(),
    decreases notes.len(),
{
    if notes.len() == 0 {
        law_window_grows_note_by_note(notes, Note { key: 0, channel: 0, start: 0, end: 0, velocity: 0 }, lower, upper);
        assert(notes == Seq::<Note>::empty());
    } else {
        let p = notes.drop_last();
        let n = notes.last();
        assert(p.push(n) == notes);
        law_window_grows_note_by_note(p, n, lower, upper);
        law_window_holds_exactly_its_notes(p, lower, upper);
        let rp = notes_in_window(p, lower, upper);
        let r = notes_in_window(notes, lower, upper);
        assert forall|i: int|
            0 <= i < notes.len() && lower <= notes[i].start && notes[i].start < upper
                implies r.contains(#[trigger] notes[i]) by {
            if i < p.len() {
                assert(notes[i] == p[i]);
                assert(rp.contains(p[i]));
                let k = choose|k: int| 0 <= k < rp.len() && rp[k] == p[i];
                assert(r[k] == rp[k]);
            } else {
                assert(r[r.len() - 1] == n);
            }
        }
        assert forall|j: int| 0 <= j < r.len() implies {
            let x = #[trigger] r[j];
            &&& lower <= x.start && x.start < upper
            &&& notes.contains(x)
        } by {
            if j < rp.len() {
                assert(r[j] == rp[j]);
                let x = rp[j];
                assert(p.contains(x));
                let k = choose|k: int| 0 <= k < p.len() && p[k] == x;
                assert(notes[k] == p[k]);
            } else {
                assert(r[j] == n);
                assert(notes[notes.len() - 1] == n);
            }
        }
    }
}

} // verus!
