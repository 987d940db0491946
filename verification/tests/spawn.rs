use keyfall::systems::graphics::notes::{DESTROY_DELAY_NANOS, SCROLL_DELAY_NANOS};
use keyfall::{Note, NoteComponent, NoteMoveSystem, NoteSpawnSystem};

fn note(key: u8, start: u64, end: u64) -> Note {
    Note { key, channel: 0, start, end, velocity: 100 }
}

#[test]
fn window_is_the_frame_shifted_by_the_scroll_delay() {
    assert_eq!(SCROLL_DELAY_NANOS, 1_000_000_000);
    assert_eq!(NoteSpawnSystem::spawn_window(5_000_000_000, 16_000_000), (5_984_000_000, 6_000_000_000));
    assert_eq!(NoteSpawnSystem::spawn_window(0, 2_000_000_000), (0, 1_000_000_000));
    assert_eq!(NoteSpawnSystem::spawn_window(u64::MAX, 5), (u64::MAX - 5, u64::MAX));
}

#[test]
fn notes_in_window_are_spawned_in_order() {
    let notes = vec![
        note(1, 5_983_999_999, 7_000_000_000),
        note(2, 5_984_000_000, 7_000_000_000),
        note(3, 5_999_999_999, 0),
        note(4, 6_000_000_000, 7_000_000_000),
        note(5, 5_990_000_000, 6_500_000_000),
    ];
    let spawned = NoteSpawnSystem::notes_to_spawn(&notes, 5_000_000_000, 16_000_000);
    assert_eq!(spawned, vec![notes[1], notes[2], notes[4]]);
    assert!(NoteSpawnSystem::notes_to_spawn(&vec![], 5_000_000_000, 16_000_000).is_empty());
}

#[test]
fn consecutive_frames_spawn_each_note_once() {
    let notes: Vec<Note> = (0..100u64).map(|i| note(i as u8, 3_000_000_000 + i * 7_777_777, 0)).collect();
    let mut now = 2_000_000_000u64;
    let mut count = vec![0; notes.len()];
    let frames = [16_000_000u64, 17_000_000, 3, 1_000_000_000, 33_333_333, 500_000_000];
    let mut k = 0;
    while now < 4_000_000_000 {
        let frame = frames[k % frames.len()];
        now += frame;
        for n in NoteSpawnSystem::notes_to_spawn(&notes, now, frame) {
            count[n.key as usize] += 1;
        }
        k += 1;
    }
    assert!(count.iter().all(|c| *c == 1));
}

#[test]
fn can_spawn_needs_the_scroll_delay_and_a_later_time() {
    let mut s = NoteSpawnSystem::default();
    assert!(s.can_spawn(3_000_000_001, 2_000_000_000, 0));
    assert!(!s.can_spawn(3_000_000_000, 2_000_000_000, 0));
    assert!(!s.can_spawn(3_000_000_000, 0, 0));
    assert!(!s.can_spawn(0, 0, 0));
    assert!(s.can_spawn(u64::MAX, 1, 0));
    assert!(!s.can_spawn(u64::MAX, u64::MAX, 0));
}

#[test]
fn destroy_time_is_a_tenth_of_a_second_after_the_end() {
    assert_eq!(DESTROY_DELAY_NANOS, 100_000_000);
    assert_eq!(NoteSpawnSystem::destroy_time(&note(1, 1, 4_000_000_000)), 4_100_000_000);
    assert_eq!(NoteSpawnSystem::destroy_time(&note(1, 1, u64::MAX - 1)), u64::MAX);
}

#[test]
fn component_takes_key_and_start() {
    assert_eq!(note(9, 123, 456).component(), NoteComponent { key: 9, time: 123 });
}

#[test]
fn time_to_play_is_signed() {
    let c = NoteComponent { key: 1, time: 5 };
    assert_eq!(NoteMoveSystem::time_to_play(&c, 8), -3);
    assert_eq!(NoteMoveSystem::time_to_play(&c, 2), 3);
    let far = NoteComponent { key: 1, time: u64::MAX };
    assert_eq!(NoteMoveSystem::time_to_play(&far, 0), u64::MAX as i128);
}

#[test]
fn default_note_is_all_zero() {
    assert_eq!(Note::default(), Note { key: 0, channel: 0, start: 0, end: 0, velocity: 0 });
}

#[test]
fn frames_from_a_start_spawn_a_note_once_inside_and_never_outside() {
    let begin = 10_000_000_000u64;
    let frames = [5u64, 16_666_667, 0, 16_666_666, 1, 40_000_000];
    let total: u64 = frames.iter().sum();
    for start in [
        begin + SCROLL_DELAY_NANOS - 1,
        begin + SCROLL_DELAY_NANOS,
        begin + SCROLL_DELAY_NANOS + 5,
        begin + SCROLL_DELAY_NANOS + 16_666_672,
        begin + SCROLL_DELAY_NANOS + total - 1,
        begin + SCROLL_DELAY_NANOS + total,
    ] {
        let notes = vec![note(1, start, 0)];
        let mut now = begin;
        let mut count = 0;
        for f in frames {
            now += f;
            count += NoteSpawnSystem::notes_to_spawn(&notes, now, f).len();
        }
        let inside = begin + SCROLL_DELAY_NANOS <= start && start < begin + total + SCROLL_DELAY_NANOS;
        assert_eq!(count, if inside { 1 } else { 0 });
    }
}
