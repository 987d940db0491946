use vstd::prelude::*;

use crate::data::midi::MidiEvent;

verus! {

/// The event a message from the MIDI keyboard is turned into: any message
/// of more than one byte becomes a key press of key 5 on channel 5 with
/// velocity 5; shorter messages are dropped.
pub fn keyboard_event(message: &[u8]) -> (e: Option<MidiEvent>)
    ensures
        e == (if message@.len() > 1 {
            Some(MidiEvent::NoteOn { ch: 5, note: 5, velocity: 5 })
        } else {
            None
        }),
{
    if message.len() > 1 {
        Some(MidiEvent::NoteOn { ch: 5, note: 5, velocity: 5 })
    } else {
        None
    }
}



/// `c` is a white-space character (the Unicode White_Space property).
pub open spec fn is_white_space(c: char) -> bool {
    let u = c as u32;
    ||| 0x09 <= u <= 0x0d
    ||| u == 0x20
    ||| u == 0x85
    ||| u == 0xa0
    ||| u == 0x1680
    ||| 0x2000 <= u <= 0x200a
    ||| u == 0x2028
    ||| u == 0x2029
    ||| u == 0x202f
    ||| u == 0x205f
    ||| u == 0x3000
}

/// `s` without its leading white space.
pub open spec fn trim_start(s: Seq<char>) -> Seq<char>
    decreases s.len(),
{
    if s.len() > 0 && is_white_space(s[0]) {
        trim_start(s.drop_first())
    } else {
        s
    }
}

/// `s` without its trailing white space.
pub open spec fn trim_end(s: Seq<char>) -> Seq<char>
    decreases s.len(),
{
    if s.len() > 0 && is_white_space(s.last()) {
        trim_end(s.drop_last())
    } else {
        s
    }
}

/// `s` without white space at either end.
pub open spec fn trim(s: Seq<char>) -> Seq<char> {
    trim_end(trim_start(s))
}

/// `c` is one of the ASCII digits `0` to `9`.
pub open spec fn is_decimal_digit(c: char) -> bool {
    '0' as u32 <= c as u32 <= '9' as u32
}

/// The number that the decimal digits `s` write (`0` for none).
pub open spec fn decimal_value(s: Seq<char>) -> int
    decreases s.len(),
{
    if s.len() == 0 {
        0
    } else {
        decimal_value(s.drop_last()) * 10 + (s.last() as u32 - '0' as u32)
    }
}

/// The digits of a number written with an optional leading `+`.
pub open spec fn unsigned_digits(s: Seq<char>) -> Seq<char> {
    if s.len() > 0 && s[0] == '+' {
        s.drop_first()
    } else {
        s
    }
}

/// The `usize` that `s` writes in decimal: an optional `+`, then at least
/// one digit and nothing else, with a value that fits.
pub open spec fn decimal_usize(s: Seq<char>) -> Option<usize> {
    let d = unsigned_digits(s);
    if d.len() > 0 && (forall|i: int| 0 <= i < d.len() ==> is_decimal_digit(#[trigger] d[i]))
        && decimal_value(d) <= usize::MAX {
        Some(decimal_value(d) as usize)
    } else {
        None
    }
}

/// The port that a line typed by the player chooses: the line, white
/// space around it removed, written as a decimal `usize`.
pub open spec fn port_choice(line: Seq<char>) -> Option<usize> {
    decimal_usize(trim(line))
}

fn white_space(c: char) -> (b: bool)
    ensures
        b == is_white_space(c),
{
    let u = c as u32;
    (0x09 <= u && u <= 0x0d) || u == 0x20 || u == 0x85 || u == 0xa0 || u == 0x1680 || (0x2000
        <= u && u <= 0x200a) || u == 0x2028 || u == 0x2029 || u == 0x202f || u == 0x205f || u
        == 0x3000
}

proof fn lemma_decimal_value_grows(d: Seq<char>, k: int)
    requires
        0 <= k <= d.len(),
        forall|i: int| 0 <= i < d.len() ==> is_decimal_digit(#[trigger] d[i]),
    ensures
        decimal_value(d.take(k)) <= decimal_value(d),
        decimal_value(d.take(k)) >= 0,
    decreases d.len() - k,
{
    if k < d.len() {
        lemma_decimal_value_grows(d, k + 1);
        assert(d.take(k + 1).drop_last() == d.take(k));
        lemma_decimal_value_nonneg(d.take(k));
    } else {
        assert(d.take(k) == d);
        lemma_decimal_value_nonneg(d);
    }
}

proof fn lemma_decimal_value_nonneg(d: Seq<char>)
    requires
        forall|i: int| 0 <= i < d.len() ==> is_decimal_digit(#[trigger] d[i]),
    ensures
        decimal_value(d) >= 0,
    decreases d.len(),
{
    if d.len() > 0 {
        let p = d.drop_last();
        assert forall|i: int| 0 <= i < p.len() implies is_decimal_digit(#[trigger] p[i]) by {
            assert(p[i] == d[i]);
        }
        lemma_decimal_value_nonneg(p);
    }
}

/// Reads the port the player chose from the line they typed: see
/// [`port_choice`]; `None` where the line writes no such number.
pub fn parse_port_choice(line: &str) -> (r: Option<usize>)
    ensures
        r == port_choice(line@),
{
    let cs = line_chars(line);
    let n = cs.len();
    let mut a: usize = 0;
    assert(cs@.skip(0) == cs@);
    while a < n && white_space(cs[a])
        invariant
            n == cs@.len(),
            a <= n,
            trim_start(cs@) == trim_start(cs@.skip(a as int)),
        decreases n - a,
    {
        assert(cs@.skip(a as int).drop_first() == cs@.skip(a + 1));
        a = a + 1;
    }
    assert(trim_start(cs@) == cs@.skip(a as int));
    let mut b: usize = n;
    while b > a && white_space(cs[b - 1])
        invariant
            n == cs@.len(),
            a <= b <= n,
            trim(cs@) == trim_end(cs@.subrange(a as int, b as int)),
        decreases b - a,
    {
        assert(cs@.subrange(a as int, b as int).drop_last() == cs@.subrange(a as int, b - 1));
        b = b - 1;
    }
    let ghost t = cs@.subrange(a as int, b as int);
    assert(trim(cs@) == t);
    let mut i = a;
    if i < b && cs[i] == '+' {
        i = i + 1;
    }
    let ghost d = cs@.subrange(i as int, b as int);
    assert(unsigned_digits(t) == d);
    if i == b {
        return None;
    }
    let start = i;
    while i < b
        invariant
            start <= i <= b <= n,
            n == cs@.len(),
            cs@ == line@,
            trim(cs@) == t,
            unsigned_digits(t) == d,
            d == cs@.subrange(start as int, b as int),
            forall|j: int| start <= j < i ==> is_decimal_digit(#[trigger] cs@[j]),
        decreases b - i,
    {
        let u = cs[i] as u32;
        if u < '0' as u32 || u > '9' as u32 {
            assert(!is_decimal_digit(d[i - start]));
            return None;
        }
        i = i + 1;
    }
    assert forall|j: int| 0 <= j < d.len() implies is_decimal_digit(#[trigger] d[j]) by {
        assert(d[j] == cs@[start + j]);
    }
    let mut v: usize = 0;
    let mut k = start;
    while k < b
        invariant
            start <= k <= b <= n,
            n == cs@.len(),
            cs@ == line@,
            trim(cs@) == t,
            unsigned_digits(t) == d,
            d.len() > 0,
            d == cs@.subrange(start as int, b as int),
            forall|j: int| 0 <= j < d.len() ==> is_decimal_digit(#[trigger] d[j]),
            v == decimal_value(d.take(k - start)),
        decreases b - k,
    {
        assert(d.take(k - start + 1).drop_last() == d.take(k - start));
        assert(d[k - start] == cs@[k as int]);
        assert(is_decimal_digit(d[k - start]));
        let digit = (cs[k] as u32 - '0' as u32) as usize;
        match v.checked_mul(10) {
            Some(w) => match w.checked_add(digit) {
                Some(x) => {
                    v = x;
                },
                None => {
                    proof {
                        lemma_decimal_value_grows(d, k - start + 1);
                    }
                    return None;
                },
            },
            None => {
                proof {
                    lemma_decimal_value_grows(d, k - start + 1);
                }
                return None;
            },
        }
        k = k + 1;
    }
    assert(d.take(d.len() as int) == d);
    Some(v)
}

fn line_chars(line: &str) -> (cs: Vec<char>)
    ensures
        cs@ == line@,
{
    broadcast use vstd::string::group_string_axioms;
    let mut cs: Vec<char> = Vec::new();
    for c in it: line.chars()
        invariant
            it.seq() == line@,
            cs@ == line@.take(it.index()),
    {
        proof { assert(line@.take(it.index() + 1) == line@.take(it.index()).push(c)); }
        cs.push(c);
    }
    proof { assert(line@.take(line@.len() as int) == line@); }
    cs
}

} // verus!
