use music_engine::pitch::{Note, HALF_STEP, HIGHEST_MIDI, LOWEST_MIDI, OCTAVE, SEMITONE};

fn note(pitch_class: u8, octave: i8, cents: i32) -> Note {
    Note { pitch_class, octave, cents }
}

#[test]
fn midi_round_trip() {
    for m in 0u8..=127 {
        let n = Note::from_midi(m);
        assert_eq!(n.to_midi(), m as i32);
        assert_eq!(n.cents, 0);
        assert!(n.pitch_class < 12);
    }
}

#[test]
fn midi_round_trip_above_the_midi_range() {
    for m in 128u8..=255 {
        assert_eq!(Note::from_midi(m).to_midi(), m as i32);
    }
}

#[test]
fn from_midi_places_the_octaves() {
    assert_eq!(Note::from_midi(0), note(0, -1, 0));
    assert_eq!(Note::from_midi(60), note(0, 4, 0));
    assert_eq!(Note::from_midi(69), note(9, 4, 0));
    assert_eq!(Note::from_midi(127), note(7, 9, 0));
}

#[test]
fn new_reduces_the_pitch_class() {
    assert_eq!(Note::new(0, 4), note(0, 4, 0));
    assert_eq!(Note::new(13, 4), note(1, 4, 0));
    assert_eq!(Note::new(255, -3), note(3, -3, 0));
}

#[test]
fn new_with_cents_limits_the_deviation() {
    assert_eq!(Note::new_with_cents(14, 2, 25_000), note(2, 2, 25_000));
    assert_eq!(Note::new_with_cents(0, 4, 50_000), note(0, 4, 50_000));
    assert_eq!(Note::new_with_cents(0, 4, 50_001), note(0, 4, HALF_STEP));
    assert_eq!(Note::new_with_cents(0, 4, -50_001), note(0, 4, -HALF_STEP));
    assert_eq!(Note::new_with_cents(0, 4, i32::MAX), note(0, 4, 50_000));
    assert_eq!(Note::new_with_cents(0, 4, i32::MIN), note(0, 4, -50_000));
}

#[test]
fn to_midi_follows_the_formula_over_all_octaves() {
    assert_eq!(note(0, 4, 0).to_midi(), 60);
    assert_eq!(note(0, -128, 0).to_midi(), LOWEST_MIDI);
    assert_eq!(note(11, 127, 0).to_midi(), HIGHEST_MIDI);
    assert_eq!(note(3, -2, 49_000).to_midi(), -9);
}

#[test]
fn frequency_of_a4_is_69_semitones() {
    assert_eq!(note(9, 4, 0).to_frequency(), 6_900_000);
    assert_eq!(note(9, 4, -14_000).to_frequency(), 6_886_000);
    assert_eq!(note(0, -1, 0).to_frequency(), 0);
    assert_eq!(note(0, 5, 0).to_frequency() - note(0, 4, 0).to_frequency(), OCTAVE);
    assert_eq!(note(1, 4, 0).to_frequency() - note(0, 4, 0).to_frequency(), SEMITONE);
}

#[test]
fn frequency_round_trip() {
    for m in 0u8..=127 {
        let p = Note::from_midi(m);
        let back = Note::from_frequency(p.to_frequency());
        assert_eq!(back.to_midi(), p.to_midi());
        assert_eq!(back, p);
    }
}

#[test]
fn from_frequency_floors_to_the_semitone() {
    assert_eq!(Note::from_frequency(6_900_000), note(9, 4, 0));
    assert_eq!(Note::from_frequency(6_925_000), note(9, 4, 25_000));
    assert_eq!(Note::from_frequency(6_999_999), note(9, 4, 99_999));
    assert_eq!(Note::from_frequency(6_899_999), note(8, 4, 99_999));
    assert_eq!(Note::from_frequency(-1), note(11, -2, 99_999));
    assert_eq!(Note::from_frequency(-100_000), note(11, -2, 0));
}

#[test]
fn from_frequency_does_not_limit_to_the_midi_range() {
    assert_eq!(Note::from_frequency(12_800_000), note(8, 9, 0));
    assert_eq!(Note::from_frequency(12_800_000).to_midi(), 128);
    assert_eq!(Note::from_frequency(-1_200_000).to_midi(), -12);
}

#[test]
fn from_frequency_runs_out_of_octaves_silently() {
    let top = Note::from_frequency(200_000_000);
    assert_eq!(top, note(11, 127, 200_000_000 - 154_700_000));
    assert_eq!(top.to_frequency(), 200_000_000);
    let bottom = Note::from_frequency(-200_000_000);
    assert_eq!(bottom, note(0, -128, -200_000_000 + 152_400_000));
    assert_eq!(bottom.to_frequency(), -200_000_000);
    assert_eq!(Note::from_frequency(i64::MAX), note(11, 127, i32::MAX));
    assert_eq!(Note::from_frequency(i64::MIN), note(0, -128, i32::MIN));
}

#[test]
fn transpose_moves_by_semitones_and_keeps_cents() {
    assert_eq!(note(0, 4, 0).transpose(4), note(4, 4, 0));
    assert_eq!(note(0, 4, 0).transpose(-1), note(11, 3, 0));
    assert_eq!(note(9, 4, -14_000).transpose(12), note(9, 5, -14_000));
    assert_eq!(note(9, 4, 7).transpose(0), note(9, 4, 7));
}

#[test]
fn transpose_limits_to_the_midi_range() {
    assert_eq!(note(0, 4, 0).transpose(100), note(7, 9, 0));
    assert_eq!(note(0, 4, 0).transpose(-100), note(0, -1, 0));
    assert_eq!(note(0, 4, 1_000).transpose(i32::MAX), note(7, 9, 1_000));
    assert_eq!(note(0, 4, 1_000).transpose(i32::MIN), note(0, -1, 1_000));
    assert_eq!(note(0, 100, 0).transpose(0), note(7, 9, 0));
    assert_eq!(note(0, -100, 0).transpose(0), note(0, -1, 0));
}

#[test]
fn transpose_inverse() {
    for m in 0i32..=127 {
        let p = Note::new_with_cents((m % 12) as u8, (m / 12 - 1) as i8, 12_345);
        for n in -127i32..=127 {
            if (0..=127).contains(&(m + n)) {
                assert_eq!(p.transpose(n).transpose(-n), p);
            }
        }
    }
}

#[test]
fn transpose_inverse_fails_only_at_the_ends() {
    let p = note(0, 4, 0);
    assert_eq!(p.transpose(100).transpose(-100), note(3, 1, 0));
}

#[test]
fn cents_carry() {
    let r = note(0, 4, 0).transpose_cents(60_000);
    assert_eq!(r.pitch_class, 0);
    assert_eq!(r.octave, 4);
    assert_eq!(r.cents, 50_000);
}

#[test]
fn transpose_cents_carries_whole_semitones() {
    assert_eq!(note(0, 4, 0).transpose_cents(25_000), note(0, 4, 25_000));
    assert_eq!(note(0, 4, 0).transpose_cents(100_000), note(1, 4, 0));
    assert_eq!(note(0, 4, 0).transpose_cents(150_000), note(1, 4, 50_000));
    assert_eq!(note(0, 4, 0).transpose_cents(130_000), note(1, 4, 30_000));
    assert_eq!(note(0, 4, 20_000).transpose_cents(1_190_000), note(0, 5, 10_000));
}

#[test]
fn transpose_cents_floors_a_negative_sum() {
    assert_eq!(note(0, 4, 0).transpose_cents(-30_000), note(11, 3, 50_000));
    assert_eq!(note(0, 4, 0).transpose_cents(-70_000), note(11, 3, 30_000));
    assert_eq!(note(0, 4, 0).transpose_cents(-100_000), note(11, 3, 0));
    assert_eq!(note(0, 4, -10_000).transpose_cents(-1), note(11, 3, 50_000));
}

#[test]
fn transpose_cents_takes_the_extremes() {
    assert_eq!(note(0, 4, i32::MAX).transpose_cents(i32::MAX), note(7, 9, 50_000));
    assert_eq!(note(0, 4, i32::MIN).transpose_cents(i32::MIN), note(0, -1, 32_704));
}

#[test]
fn multiply_freq_by_an_octave_and_a_fifth() {
    assert_eq!(note(0, 4, 0).multiply_freq(OCTAVE), note(0, 5, 0));
    assert_eq!(note(0, 4, 0).multiply_freq(-OCTAVE), note(0, 3, 0));
    assert_eq!(note(0, 4, 0).multiply_freq(701_955), note(7, 4, 1_955));
    assert_eq!(note(0, 4, 0).multiply_freq(0), note(0, 4, 0));
    assert_eq!(note(0, 4, -14_000).multiply_freq(0), note(11, 3, 86_000));
}

#[test]
fn multiply_freq_takes_the_extremes() {
    assert_eq!(note(0, 4, 0).multiply_freq(i64::MAX), note(11, 127, i32::MAX));
    assert_eq!(note(0, 4, 0).multiply_freq(i64::MIN), note(0, -128, i32::MIN));
}

#[test]
fn interval_to_is_signed_and_ignores_cents() {
    let c4 = note(0, 4, 0);
    let g4 = note(7, 4, 49_000);
    assert_eq!(c4.interval_to(&g4), 7);
    assert_eq!(g4.interval_to(&c4), -7);
    assert_eq!(c4.interval_to(&c4), 0);
    assert_eq!(note(0, -128, 0).interval_to(&note(11, 127, 0)), 3071);
}

#[test]
fn names_of_the_twelve_pitch_classes() {
    let names = ["C", "C#", "D", "D#", "E", "F", "F#", "G", "G#", "A", "A#", "B"];
    for pc in 0u8..12 {
        assert_eq!(Note::new(pc, 4).name(), names[pc as usize]);
    }
}

#[test]
fn text_of_a_plain_note() {
    assert_eq!(note(0, 4, 0).to_string(), "C4");
    assert_eq!(note(1, 4, 0).to_string(), "C#4");
    assert_eq!(note(9, -1, 0).to_string(), "A-1");
    assert_eq!(note(11, 10, 0).to_string(), "B10");
    assert_eq!(note(0, -128, 0).to_string(), "C-128");
    assert_eq!(note(0, 4, 99).to_string(), "C4");
    assert_eq!(note(0, 4, -99).to_string(), "C4");
}

#[test]
fn text_of_a_deviating_note() {
    assert_eq!(note(4, 5, -14_000).to_string(), "E5(-14\u{a2})");
    assert_eq!(note(0, 4, 25_000).to_string(), "C4(+25\u{a2})");
    assert_eq!(note(0, 4, 100).to_string(), "C4(+0\u{a2})");
    assert_eq!(note(0, 4, -300).to_string(), "C4(-0\u{a2})");
    assert_eq!(note(0, 4, 99_999).to_string(), "C4(+100\u{a2})");
}

#[test]
fn text_rounds_half_cents_to_even() {
    assert_eq!(note(0, 4, 500).to_string(), "C4(+0\u{a2})");
    assert_eq!(note(0, 4, 501).to_string(), "C4(+1\u{a2})");
    assert_eq!(note(0, 4, 1_500).to_string(), "C4(+2\u{a2})");
    assert_eq!(note(0, 4, 2_500).to_string(), "C4(+2\u{a2})");
    assert_eq!(note(0, 4, -2_500).to_string(), "C4(-2\u{a2})");
    assert_eq!(note(0, 4, -3_500).to_string(), "C4(-4\u{a2})");
    assert_eq!(note(0, 4, 12_499).to_string(), "C4(+12\u{a2})");
}

#[test]
fn write_to_appends() {
    let mut out = String::from("note: ");
    note(6, 3, 0).write_to(&mut out);
    assert_eq!(out, "note: F#3");
}
