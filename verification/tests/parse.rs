use music_engine::parse::{parse_note, parse_note_chars};
use music_engine::pitch::Note;

fn some(pitch_class: u8, octave: i8, cents: i32) -> Option<Note> {
    Some(Note { pitch_class, octave, cents })
}

#[test]
fn parses_plain_notes() {
    assert_eq!(parse_note("C4"), some(0, 4, 0));
    assert_eq!(parse_note("A4"), some(9, 4, 0));
    assert_eq!(parse_note("B0"), some(11, 0, 0));
    assert_eq!(parse_note("G10"), some(7, 10, 0));
    assert_eq!(parse_note("D04"), some(2, 4, 0));
}

#[test]
fn parses_every_note_name() {
    let names = [
        ("C", 0), ("C#", 1), ("CS", 1), ("D", 2), ("D#", 3), ("DS", 3), ("E", 4), ("F", 5),
        ("F#", 6), ("FS", 6), ("G", 7), ("G#", 8), ("GS", 8), ("A", 9), ("A#", 10), ("AS", 10),
        ("B", 11),
    ];
    for (name, pc) in names {
        assert_eq!(parse_note(&format!("{}3", name)), some(pc, 3, 0));
        assert_eq!(parse_note(&format!("{}3", name.to_lowercase())), some(pc, 3, 0));
    }
}

#[test]
fn default_octave_is_four() {
    assert_eq!(parse_note("C"), some(0, 4, 0));
    assert_eq!(parse_note("F#"), some(6, 4, 0));
    assert_eq!(parse_note("as"), some(10, 4, 0));
}

#[test]
fn parses_negative_octaves() {
    assert_eq!(parse_note("C-1"), some(0, -1, 0));
    assert_eq!(parse_note("A-1"), some(9, -1, 0));
    assert_eq!(parse_note("C#-2"), some(1, -2, 0));
    assert_eq!(parse_note("C-128"), some(0, -128, 0));
    assert_eq!(parse_note("C127"), some(0, 127, 0));
}

#[test]
fn parses_cents_suffixes() {
    assert_eq!(parse_note("C4+25"), some(0, 4, 25_000));
    assert_eq!(parse_note("E5-14"), some(4, 5, -14_000));
    assert_eq!(parse_note("C4-14"), some(0, 4, -14_000));
    assert_eq!(parse_note("C#4+25"), some(1, 4, 25_000));
    assert_eq!(parse_note("C4+12.5"), some(0, 4, 12_500));
    assert_eq!(parse_note("C4+.5"), some(0, 4, 500));
    assert_eq!(parse_note("C4+7."), some(0, 4, 7_000));
    assert_eq!(parse_note("C4-0.25"), some(0, 4, -250));
    assert_eq!(parse_note("C4+1.23456"), some(0, 4, 1_234));
}

#[test]
fn cents_with_an_exponent() {
    assert_eq!(parse_note("C4+1e1"), some(0, 4, 10_000));
    assert_eq!(parse_note("C4+2.5E1"), some(0, 4, 25_000));
    assert_eq!(parse_note("C4+125e-1"), some(0, 4, 12_500));
    assert_eq!(parse_note("C4+-1e0"), some(0, 4, -1_000));
    assert_eq!(parse_note("C4+1e3"), some(0, 4, 50_000));
    assert_eq!(parse_note("C4+1e-9"), some(0, 4, 0));
}

#[test]
fn infinite_cents_are_limited_to_fifty() {
    assert_eq!(parse_note("C4+inf"), some(0, 4, 50_000));
    assert_eq!(parse_note("C4+-inf"), some(0, 4, -50_000));
    assert_eq!(parse_note("C4+Infinity"), some(0, 4, 50_000));
}

#[test]
fn cents_suffix_after_a_negative_octave() {
    assert_eq!(parse_note("C-1+25"), some(0, -1, 25_000));
    assert_eq!(parse_note("C-1-14"), some(0, -1, -14_000));
}

#[test]
fn signed_cents_behind_a_plus() {
    assert_eq!(parse_note("C4+-5"), some(0, 4, -5_000));
    assert_eq!(parse_note("C4++5"), some(0, 4, 5_000));
}

#[test]
fn cents_are_limited_to_fifty() {
    assert_eq!(parse_note("C4+50"), some(0, 4, 50_000));
    assert_eq!(parse_note("C4+50.001"), some(0, 4, 50_000));
    assert_eq!(parse_note("C4+99"), some(0, 4, 50_000));
    assert_eq!(parse_note("C4-99"), some(0, 4, -50_000));
    assert_eq!(parse_note("C4+99999999999999999999999999999999"), some(0, 4, 50_000));
    assert_eq!(parse_note("C4-99999999999999999999999999999999"), some(0, 4, -50_000));
}

#[test]
fn malformed_cents_count_as_none() {
    assert_eq!(parse_note("C4+abc"), some(0, 4, 0));
    assert_eq!(parse_note("C4+"), some(0, 4, 0));
    assert_eq!(parse_note("C4-"), some(0, 4, 0));
    assert_eq!(parse_note("C4-1.2.3"), some(0, 4, 0));
    assert_eq!(parse_note("C4+1e"), some(0, 4, 0));
    assert_eq!(parse_note("C4+nan"), some(0, 4, 0));
    assert_eq!(parse_note("C4+in"), some(0, 4, 0));
    assert_eq!(parse_note("C+5"), some(0, 4, 5_000));
}

#[test]
fn rejects_what_is_no_note() {
    assert_eq!(parse_note(""), None);
    assert_eq!(parse_note("   "), None);
    assert_eq!(parse_note("H4"), None);
    assert_eq!(parse_note("E#4"), None);
    assert_eq!(parse_note("BS4"), None);
    assert_eq!(parse_note("Cb4"), None);
    assert_eq!(parse_note("4"), None);
    assert_eq!(parse_note("-1"), None);
    assert_eq!(parse_note("+5"), None);
    assert_eq!(parse_note("C--1"), None);
    assert_eq!(parse_note("C4!"), None);
    assert_eq!(parse_note("hello"), None);
    assert_eq!(parse_note("C 4"), None);
}

#[test]
fn rejects_an_octave_that_does_not_fit() {
    assert_eq!(parse_note("C128"), None);
    assert_eq!(parse_note("C-129"), None);
    assert_eq!(parse_note("C99999999999999999999999"), None);
    assert_eq!(parse_note("C000000000000000000000004"), some(0, 4, 0));
}

#[test]
fn trims_white_space() {
    assert_eq!(parse_note("  C4\t"), some(0, 4, 0));
    assert_eq!(parse_note("\u{a0}G#2\u{3000}\n"), some(8, 2, 0));
}

#[test]
fn minus_without_a_digit_before_it_belongs_to_the_octave() {
    assert_eq!(parse_note("C#-1"), some(1, -1, 0));
    assert_eq!(parse_note("C-1x"), None);
}

#[test]
fn parses_from_characters() {
    let chars: Vec<char> = "F#3-20".chars().collect();
    assert_eq!(parse_note_chars(&chars), some(6, 3, -20_000));
}
