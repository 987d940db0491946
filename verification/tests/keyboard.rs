use keyfall::{keyboard_event, parse_port_choice, MidiEvent};

#[test]
fn messages_of_two_or_more_bytes_become_a_press() {
    assert_eq!(keyboard_event(&[144, 60, 100]), Some(MidiEvent::NoteOn { ch: 5, note: 5, velocity: 5 }));
    assert_eq!(keyboard_event(&[128, 60]), Some(MidiEvent::NoteOn { ch: 5, note: 5, velocity: 5 }));
    assert_eq!(keyboard_event(&[248]), None);
    assert_eq!(keyboard_event(&[]), None);
}

#[test]
fn port_choice_reads_a_trimmed_number() {
    assert_eq!(parse_port_choice("0\n"), Some(0));
    assert_eq!(parse_port_choice("  12 \r\n"), Some(12));
    assert_eq!(parse_port_choice("+7"), Some(7));
    assert_eq!(parse_port_choice("\u{3000}5\u{a0}"), Some(5));
    assert_eq!(parse_port_choice("007"), Some(7));
}

#[test]
fn port_choice_refuses_what_is_no_number() {
    assert_eq!(parse_port_choice(""), None);
    assert_eq!(parse_port_choice("  \n"), None);
    assert_eq!(parse_port_choice("+"), None);
    assert_eq!(parse_port_choice("-1"), None);
    assert_eq!(parse_port_choice("1 2"), None);
    assert_eq!(parse_port_choice("12a"), None);
    assert_eq!(parse_port_choice("++1"), None);
    assert_eq!(parse_port_choice("\u{200b}1"), None);
}

#[test]
fn port_choice_refuses_what_does_not_fit() {
    let max = usize::MAX.to_string();
    assert_eq!(parse_port_choice(&max), Some(usize::MAX));
    let over = format!("{}0", max);
    assert_eq!(parse_port_choice(&over), None);
    assert_eq!(parse_port_choice("99999999999999999999999999"), None);
}

#[test]
fn port_choice_agrees_with_std() {
    for s in ["3", " 3", "3 ", "+0", "-0", "", "x", "\t42\n", "1_000", "18446744073709551615", "18446744073709551616"] {
        assert_eq!(parse_port_choice(s), s.trim().parse::<usize>().ok(), "{:?}", s);
    }
}
