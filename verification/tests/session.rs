use music_engine::session::{
    analysis_part, played_part, read_command, Command, LONG_MILLIS, SHORT_MILLIS,
};
use music_engine::synth::{plan_render, sample_count, PEAK_MILLIS, SAMPLE_RATE};
use music_engine::parse::parse_note;
use music_engine::pitch::Note;

#[test]
fn stop_command() {
    assert_eq!(read_command("!stop"), Command::Stop);
    assert_eq!(read_command("!stop\n"), Command::Stop);
    assert_eq!(read_command(" !stop"), Command::Analyze(None));
    assert_eq!(read_command("!stop!"), Command::Analyze(Some(SHORT_MILLIS)));
}

#[test]
fn replay_commands() {
    assert_eq!(read_command("!"), Command::Replay(800));
    assert_eq!(read_command("!!"), Command::Replay(2000));
    assert_eq!(read_command("!\r\n"), Command::Replay(SHORT_MILLIS));
    assert_eq!(read_command("!!  "), Command::Replay(LONG_MILLIS));
    assert_eq!(read_command("!!!"), Command::Analyze(Some(LONG_MILLIS)));
}

#[test]
fn analysis_commands() {
    assert_eq!(read_command("C4 E4 G4"), Command::Analyze(None));
    assert_eq!(read_command("C4 E4 G4 !\n"), Command::Analyze(Some(800)));
    assert_eq!(read_command("C4 E4 G4 !!\n"), Command::Analyze(Some(2000)));
    assert_eq!(read_command(""), Command::Analyze(None));
    assert_eq!(read_command("\n"), Command::Analyze(None));
    assert_eq!(read_command("! C4"), Command::Analyze(None));
}

#[test]
fn parts_of_a_line() {
    assert_eq!(played_part("C4 E4 !!\n"), "C4 E4 !!");
    assert_eq!(analysis_part("C4 E4 !!\n"), "C4 E4 ");
    assert_eq!(analysis_part("C4 E4!\t"), "C4 E4");
    assert_eq!(analysis_part("  C4 ! E4"), "  C4 ! E4");
    assert_eq!(analysis_part("!!!"), "");
    assert_eq!(played_part("   "), "");
    assert_eq!(analysis_part(""), "");
}

#[test]
fn synthesis_determinism() {
    assert_eq!(sample_count(1000, 44_100), 44_100);
    let c4 = [parse_note("C4").unwrap()];
    let plan = plan_render(&c4, 1000, SAMPLE_RATE);
    assert_eq!(plan.samples, 44_100);
    assert_eq!(plan.sample_rate, 44_100);
    assert_eq!(plan.channels, 1);
    assert_eq!(plan.voices, vec![6_000_000]);
    assert_eq!(plan.share, 1);
    assert_eq!(PEAK_MILLIS, 300);
}

#[test]
fn sample_count_rounds_to_the_nearest() {
    assert_eq!(sample_count(800, 44_100), 35_280);
    assert_eq!(sample_count(2000, 44_100), 88_200);
    assert_eq!(sample_count(1, 44_100), 44);
    assert_eq!(sample_count(1, 44_500), 45);
    assert_eq!(sample_count(1, 499), 0);
    assert_eq!(sample_count(1, 500), 1);
    assert_eq!(sample_count(0, 44_100), 0);
    assert_eq!(sample_count(1000, 0), 0);
    assert_eq!(sample_count(u64::MAX, u32::MAX), usize::MAX);
}

#[test]
fn plan_shares_the_amplitude_among_the_voices() {
    let notes: Vec<Note> =
        ["C4", "E4+25", "G4"].iter().map(|t| parse_note(t).unwrap()).collect();
    let plan = plan_render(&notes, 800, 48_000);
    assert_eq!(plan.samples, 38_400);
    assert_eq!(plan.sample_rate, 48_000);
    assert_eq!(plan.voices, vec![6_000_000, 6_425_000, 6_700_000]);
    assert_eq!(plan.share, 3);
}

#[test]
fn plan_for_silence() {
    let plan = plan_render(&[], 800, SAMPLE_RATE);
    assert_eq!(plan.samples, 35_280);
    assert!(plan.voices.is_empty());
    assert_eq!(plan.share, 1);
    assert_eq!(plan.channels, 1);
}
