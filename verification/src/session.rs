//! What a line of input asks of a session: to stop playback, to play the
//! last notes again, or to analyze the line and perhaps play its notes.

use crate::text::{chars_of, spells, trim_end_len, trimmed_end};
use vstd::prelude::*;
use vstd::string::*;

verus! {

/// How long a line that ends in one `!` plays, in milliseconds.
pub const SHORT_MILLIS: u64 = 800;

/// How long a line that ends in `!!` plays, in milliseconds.
pub const LONG_MILLIS: u64 = 2000;

/// What a line asks for.
#[derive(Clone, Copy, Debug, PartialEq, Eq, Structural)]
pub enum Command {
    /// `!stop`: halt whatever is playing.
    Stop,
    /// `!` or `!!` alone: play the last notes again, for this many
    /// milliseconds.
    Replay(u64),
    /// Any other line: analyze it, and where a duration in milliseconds
    /// is given, play its notes for that long.
    Analyze(Option<u64>),
}

/// `s` without any `!` at its end.
pub open spec fn without_bangs(s: Seq<char>) -> Seq<char>
    decreases s.len(),
{
    if s.len() > 0 && s.last() == '!' {
        without_bangs(s.drop_last())
    } else {
        s
    }
}

/// How long the text `t` asks to play: long where it ends in `!!`, short
/// where it ends in one `!`, and not at all otherwise.
pub open spec fn play_millis(t: Seq<char>) -> Option<u64> {
    if t.len() >= 2 && t[t.len() - 1] == '!' && t[t.len() - 2] == '!' {
        Some(LONG_MILLIS)
    } else if t.len() >= 1 && t[t.len() - 1] == '!' {
        Some(SHORT_MILLIS)
    } else {
        None
    }
}

/// What `line` asks for, white space at its end apart.
pub open spec fn command_of(line: Seq<char>) -> Command {
    let t = trimmed_end(line);
    if t == "!stop"@ {
        Command::Stop
    } else if t == "!"@ {
        Command::Replay(SHORT_MILLIS)
    } else if t == "!!"@ {
        Command::Replay(LONG_MILLIS)
    } else {
        Command::Analyze(play_millis(t))
    }
}

/// What of `line` is played: the line without the white space at its end.
pub open spec fn played_text(line: Seq<char>) -> Seq<char> {
    trimmed_end(line)
}

/// What of `line` is analyzed: the line without the white space and the
/// `!` at its end.
pub open spec fn analysis_text(line: Seq<char>) -> Seq<char> {
    without_bangs(trimmed_end(line))
}

/// What `line` asks for.
pub fn read_command(line: &str) -> (command: Command)
    ensures
        command == command_of(line@),
{
    let chars = chars_of(line);
    let e = trim_end_len(chars.as_slice());
    let t = &chars.as_slice()[0..e];
    assert(t@ =~= trimmed_end(line@));
    if spells(t, "!stop") {
        Command::Stop
    } else if spells(t, "!") {
        Command::Replay(SHORT_MILLIS)
    } else if spells(t, "!!") {
        Command::Replay(LONG_MILLIS)
    } else if e >= 2 && t[e - 1] == '!' && t[e - 2] == '!' {
        Command::Analyze(Some(LONG_MILLIS))
    } else if e >= 1 && t[e - 1] == '!' {
        Command::Analyze(Some(SHORT_MILLIS))
    } else {
        Command::Analyze(None)
    }
}

/// The part of `line` whose notes are played.
pub fn played_part(line: &str) -> (part: &str)
    ensures
        part@ == played_text(line@),
{
    let chars = chars_of(line);
    let e = trim_end_len(chars.as_slice());
    let part = line.substring_char(0, e);
    assert(part@ =~= trimmed_end(line@));
    part
}

/// The part of `line` that is analyzed.
pub fn analysis_part(line: &str) -> (part: &str)
    ensures
        part@ == analysis_text(line@),
{
    let chars = chars_of(line);
    let trimmed = trim_end_len(chars.as_slice());
    let ghost t = chars@.take(trimmed as int);
    let mut e: usize = trimmed;
    assert(t.take(e as int) =~= t);
    while e > 0 && chars[e - 1] == '!'
        invariant
            e <= trimmed <= chars.len(),
            t == chars@.take(trimmed as int),
            without_bangs(t) == without_bangs(t.take(e as int)),
        decreases e,
    {
        assert(t.take(e as int).drop_last() =~= t.take(e - 1));
        assert(t.take(e as int).last() == chars@[e - 1]);
        e -= 1;
    }
    proof {
        if e > 0 {
            assert(t.take(e as int).last() == chars@[e - 1]);
        }
        assert(t.take(e as int) =~= line@.subrange(0, e as int));
    }
    line.substring_char(0, e)
}

} // verus!
