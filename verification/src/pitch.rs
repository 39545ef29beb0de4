//! The pitch model: a note is a pitch class, an octave and a deviation in
//! thousandths of a cent.

use crate::number::{clamp_int, int_text, nat_text, push_int, push_nat};
use vstd::prelude::*;
use vstd::string::*;

verus! {

/// Thousandths of a cent in one semitone.
pub const SEMITONE: i64 = 100_000;

/// Thousandths of a cent in one octave.
pub const OCTAVE: i64 = 1_200_000;

/// Largest deviation, in thousandths of a cent, that a constructor or a
/// retuning leaves on a note: fifty cents.
pub const HALF_STEP: i32 = 50_000;

/// MIDI number of the lowest note that the octave field can hold (C in octave -128).
pub const LOWEST_MIDI: i32 = -1524;

/// MIDI number of the highest note that the octave field can hold (B in octave 127).
pub const HIGHEST_MIDI: i32 = 1547;

/// A single pitch.
///
/// `cents` is the deviation from the nominal pitch of `pitch_class` and
/// `octave`, in thousandths of a cent.
#[derive(Clone, Copy, Debug, PartialEq, Eq, Structural)]
pub struct Note {
    pub pitch_class: u8,
    pub octave: i8,
    pub cents: i32,
}

/// The note without deviation whose MIDI number is `m`.
pub open spec fn note_of_midi(m: int) -> Note {
    Note { pitch_class: (m % 12) as u8, octave: (m / 12 - 1) as i8, cents: 0 }
}

/// The note at position `f` of the logarithmic frequency scale.
///
/// The MIDI number is the number of whole semitones below `f`, limited to
/// what the octave field can hold; whatever is left over becomes the
/// deviation, limited to what its field can hold.
pub open spec fn note_of_frequency(f: int) -> Note {
    let m = clamp_int(f / 100_000, LOWEST_MIDI as int, HIGHEST_MIDI as int);
    Note {
        pitch_class: (m % 12) as u8,
        octave: (m / 12 - 1) as i8,
        cents: clamp_int(f - m * 100_000, i32::MIN as int, i32::MAX as int) as i32,
    }
}

/// The name of pitch class `pc`, sharps for the raised steps.
pub open spec fn class_name(pc: int) -> Seq<char> {
    if pc == 0 {
        "C"@
    } else if pc == 1 {
        "C#"@
    } else if pc == 2 {
        "D"@
    } else if pc == 3 {
        "D#"@
    } else if pc == 4 {
        "E"@
    } else if pc == 5 {
        "F"@
    } else if pc == 6 {
        "F#"@
    } else if pc == 7 {
        "G"@
    } else if pc == 8 {
        "G#"@
    } else if pc == 9 {
        "A"@
    } else if pc == 10 {
        "A#"@
    } else {
        "B"@
    }
}

/// A deviation of `cents` thousandths of a cent in whole cents, without its
/// sign: rounded to the nearest, and a half to the even one.
pub open spec fn whole_cents(cents: int) -> nat {
    let size = if cents < 0 {
        -cents
    } else {
        cents
    };
    let below = size / 1000;
    let rest = size % 1000;
    if rest > 500 || (rest == 500 && below % 2 == 1) {
        (below + 1) as nat
    } else {
        below as nat
    }
}

/// Every note of `notes` has its pitch class among the twelve chromatic steps.
pub open spec fn all_wf(notes: Seq<Note>) -> bool {
    forall|i: int| 0 <= i < notes.len() ==> (#[trigger] notes[i]).wf()
}

impl Note {
    /// The pitch class is one of the twelve chromatic steps.
    pub open spec fn wf(self) -> bool {
        self.pitch_class < 12
    }

    /// MIDI number: twelve per octave, with C of octave -1 at zero.
    pub open spec fn midi(self) -> int {
        (self.octave + 1) * 12 + self.pitch_class
    }

    /// Position on the logarithmic frequency scale, in thousandths of a cent
    /// above MIDI note zero.
    pub open spec fn frequency(self) -> int {
        self.midi() * 100_000 + self.cents
    }

    /// This note moved by `n` semitones, the MIDI number limited to 0..=127,
    /// the deviation kept.
    pub open spec fn transposed(self, n: int) -> Note {
        let m = clamp_int(self.midi() + n, 0, 127);
        Note { pitch_class: (m % 12) as u8, octave: (m / 12 - 1) as i8, cents: self.cents }
    }

    /// This note moved by `c` thousandths of a cent: the whole semitones of
    /// the summed deviation are carried into a transposition, and what is
    /// left, which is never negative, is limited to fifty cents.
    pub open spec fn retuned(self, c: int) -> Note {
        let total = self.cents + c;
        let rest = total % 100_000;
        Note {
            cents: (if rest > HALF_STEP { HALF_STEP as int } else { rest }) as i32,
            ..self.transposed(total / 100_000)
        }
    }

    /// This note with its frequency moved by `ratio` on the logarithmic scale.
    pub open spec fn scaled(self, ratio: int) -> Note {
        note_of_frequency(self.frequency() + ratio)
    }

    /// How the note is written: name and octave, and behind them, where the
    /// deviation reaches a tenth of a cent, its sign and whole cents in
    /// brackets with a cent sign, as in `E5(-14c)` with the sign for `c`.
    pub open spec fn text(self) -> Seq<char> {
        let plain = class_name(self.pitch_class as int) + int_text(self.octave as int);
        if -100 < self.cents < 100 {
            plain
        } else {
            plain + (if self.cents < 0 {
                "(-"@
            } else {
                "(+"@
            }) + nat_text(whole_cents(self.cents as int)) + "\u{a2})"@
        }
    }

    /// A note without deviation; the pitch class is reduced modulo 12.
    pub fn new(pitch_class: u8, octave: i8) -> (note: Note)
        ensures
            note == (Note { pitch_class: pitch_class % 12, octave, cents: 0 }),
            note.wf(),
    {
        Note { pitch_class: pitch_class % 12, octave, cents: 0 }
    }

    /// A note with a deviation; the pitch class is reduced modulo 12 and the
    /// deviation limited to fifty cents either way.
    pub fn new_with_cents(pitch_class: u8, octave: i8, cents: i32) -> (note: Note)
        ensures
            note == (Note {
                pitch_class: pitch_class % 12,
                octave,
                cents: clamp_int(cents as int, -HALF_STEP, HALF_STEP as int) as i32,
            }),
            note.wf(),
    {
        let limited: i32 = if cents < -HALF_STEP {
            -HALF_STEP
        } else if cents > HALF_STEP {
            HALF_STEP
        } else {
            cents
        };
        Note { pitch_class: pitch_class % 12, octave, cents: limited }
    }

    /// The note without deviation that has the given MIDI number.
    pub fn from_midi(midi: u8) -> (note: Note)
        ensures
            note == note_of_midi(midi as int),
            note.wf(),
            note.midi() == midi,
    {
        Note { pitch_class: midi % 12, octave: (midi / 12) as i8 - 1, cents: 0 }
    }

    /// The MIDI number of this note; the deviation plays no part.
    pub fn to_midi(&self) -> (midi: i32)
        ensures
            midi == self.midi(),
    {
        (self.octave as i32 + 1) * 12 + self.pitch_class as i32
    }

    /// Position of this note on the logarithmic frequency scale.
    pub fn to_frequency(&self) -> (f: i64)
        ensures
            f == self.frequency(),
    {
        self.to_midi() as i64 * SEMITONE + self.cents as i64
    }

    /// The note at position `f` of the logarithmic frequency scale.
    pub fn from_frequency(f: i64) -> (note: Note)
        ensures
            note == note_of_frequency(f as int),
            note.wf(),
    {
        from_wide_frequency(f as i128)
    }

    /// This note moved by `semitones`, the MIDI number limited to 0..=127.
    pub fn transpose(&self, semitones: i32) -> (note: Note)
        ensures
            note == self.transposed(semitones as int),
            note.wf(),
            note.cents == self.cents,
            0 <= note.midi() <= 127,
    {
        transpose_wide(self, semitones as i64)
    }

    /// This note moved by `cents` thousandths of a cent, whole semitones
    /// carried into a transposition.
    pub fn transpose_cents(&self, cents: i32) -> (note: Note)
        ensures
            note == self.retuned(cents as int),
            note.wf(),
            0 <= note.cents <= HALF_STEP,
    {
        let total: i64 = self.cents as i64 + cents as i64;
        // Whole semitones below `total`, found without dividing a negative number.
        let shifted: i64 = total + 50_000 * SEMITONE;
        let extra: i64 = shifted / SEMITONE - 50_000;
        let rest: i64 = shifted % SEMITONE;
        assert(extra == total / 100_000 && rest == total % 100_000);
        let moved = transpose_wide(self, extra);
        Note {
            pitch_class: moved.pitch_class,
            octave: moved.octave,
            cents: if rest > HALF_STEP as i64 { HALF_STEP } else { rest as i32 },
        }
    }

    /// This note with its frequency moved by `ratio` on the logarithmic
    /// scale, which multiplies the frequency by the ratio that spans it.
    pub fn multiply_freq(&self, ratio: i64) -> (note: Note)
        ensures
            note == self.scaled(ratio as int),
            note.wf(),
    {
        from_wide_frequency(self.to_frequency() as i128 + ratio as i128)
    }

    /// The name of the pitch class.
    pub fn name(&self) -> (name: &'static str)
        requires
            self.wf(),
        ensures
            name@ == class_name(self.pitch_class as int),
    {
        match self.pitch_class {
            0 => "C",
            1 => "C#",
            2 => "D",
            3 => "D#",
            4 => "E",
            5 => "F",
            6 => "F#",
            7 => "G",
            8 => "G#",
            9 => "A",
            10 => "A#",
            _ => "B",
        }
    }

    /// Appends the note to `out`, as `text` writes it.
    pub fn write_to(&self, out: &mut String)
        requires
            self.wf(),
        ensures
            final(out)@ == old(out)@ + self.text(),
    {
        out.append(self.name());
        push_int(out, self.octave as i64);
        if self.cents <= -100 || self.cents >= 100 {
            let size: i64 = if self.cents < 0 {
                -(self.cents as i64)
            } else {
                self.cents as i64
            };
            let below: i64 = size / 1000;
            let rest: i64 = size % 1000;
            let whole: i64 = if rest > 500 || (rest == 500 && below % 2 == 1) {
                below + 1
            } else {
                below
            };
            if self.cents < 0 {
                out.append("(-");
            } else {
                out.append("(+");
            }
            push_nat(out, whole as u64);
            out.append("\u{a2})");
        }
        assert(out@ =~= old(out)@ + self.text());
    }

    /// The note as `text` writes it.
    pub fn to_string(&self) -> (s: String)
        requires
            self.wf(),
        ensures
            s@ == self.text(),
    {
        let mut s = String::new();
        self.write_to(&mut s);
        assert(s@ =~= self.text());
        s
    }

    /// Signed distance in semitones from this note up to `other`; deviations
    /// play no part.
    pub fn interval_to(&self, other: &Note) -> (semitones: i32)
        ensures
            semitones == other.midi() - self.midi(),
    {
        other.to_midi() - self.to_midi()
    }
}

/// `from_frequency` on a range wide enough for the sum of two positions.
pub(crate) fn from_wide_frequency(f: i128) -> (note: Note)
    ensures
        note == note_of_frequency(f as int),
        note.wf(),
{
    let low: i128 = LOWEST_MIDI as i128 * 100_000;
    let m: i32 = if f < low {
        LOWEST_MIDI
    } else if f >= (HIGHEST_MIDI as i128 + 1) * 100_000 {
        HIGHEST_MIDI
    } else {
        LOWEST_MIDI + ((f - low) / 100_000) as i32
    };
    assert(m == clamp_int(f as int / 100_000, LOWEST_MIDI as int, HIGHEST_MIDI as int));
    let rest: i128 = f - m as i128 * 100_000;
    let cents: i32 = if rest < i32::MIN as i128 {
        i32::MIN
    } else if rest > i32::MAX as i128 {
        i32::MAX
    } else {
        rest as i32
    };
    // Twelve times 127 semitones lie below MIDI zero in this range.
    let up: i32 = m + 1524;
    Note { pitch_class: (up % 12) as u8, octave: (up / 12 - 128) as i8, cents }
}

/// `transpose` on a range wide enough for any carried or negated amount.
pub(crate) fn transpose_wide(note: &Note, semitones: i64) -> (moved: Note)
    ensures
        moved == note.transposed(semitones as int),
        moved.wf(),
        moved.cents == note.cents,
        0 <= moved.midi() <= 127,
{
    transpose_far(note, semitones as i128)
}

/// `transpose` by an amount that only a position in a sequence can reach.
pub(crate) fn transpose_far(note: &Note, semitones: i128) -> (moved: Note)
    requires
        -0x4000_0000_0000_0000_0000 <= semitones <= 0x4000_0000_0000_0000_0000,
    ensures
        moved == note.transposed(semitones as int),
        moved.wf(),
        moved.cents == note.cents,
        0 <= moved.midi() <= 127,
{
    let sum: i128 = note.to_midi() as i128 + semitones;
    let m: u8 = if sum < 0 {
        0
    } else if sum > 127 {
        127
    } else {
        sum as u8
    };
    Note { pitch_class: m % 12, octave: (m / 12) as i8 - 1, cents: note.cents }
}

/// Every MIDI number comes back from the note that was made of it.
pub proof fn lemma_midi_round_trip(m: u8)
    ensures
        note_of_midi(m as int).wf(),
        note_of_midi(m as int).midi() == m,
{
}

/// A position that a note can stand for without running out of octaves is
/// the position of the note that is made of it, and that note deviates
/// upward by less than a semitone.
pub proof fn lemma_frequency_kept(f: int)
    requires
        LOWEST_MIDI * 100_000 <= f < (HIGHEST_MIDI + 1) * 100_000,
    ensures
        note_of_frequency(f).wf(),
        note_of_frequency(f).frequency() == f,
        note_of_frequency(f).midi() == f / 100_000,
        0 <= note_of_frequency(f).cents < 100_000,
{
}

/// A note that deviates upward by less than a semitone comes back from its
/// own frequency; so does, in particular, the MIDI number of a note without
/// deviation.
pub proof fn lemma_frequency_round_trip(p: Note)
    requires
        p.wf(),
        0 <= p.cents < 100_000,
    ensures
        note_of_frequency(p.frequency()) == p,
        note_of_frequency(p.frequency()).midi() == p.midi(),
{
    lemma_frequency_kept(p.frequency());
}

/// Whatever a note deviates by, the note made of its frequency sounds at
/// that frequency.
pub proof fn lemma_frequency_preserved(p: Note)
    requires
        p.wf(),
    ensures
        note_of_frequency(p.frequency()).frequency() == p.frequency(),
{
    let f = p.frequency();
    let m = clamp_int(f / 100_000, LOWEST_MIDI as int, HIGHEST_MIDI as int);
    // The MIDI number found lies between that of `p` and the semitone that
    // holds `f`, so what is left over is no larger than the deviation of `p`.
    assert(LOWEST_MIDI <= p.midi() <= HIGHEST_MIDI);
    if p.cents >= 0 {
        assert(p.midi() <= m);
        assert(0 <= f - m * 100_000 <= p.cents);
    } else {
        assert(m <= p.midi());
        assert(p.cents <= f - m * 100_000 < 100_000);
    }
}

/// Moving a note by semitones and back again gives the note itself, as
/// long as neither move runs into an end of the MIDI range.
pub proof fn lemma_transpose_inverse(p: Note, n: int)
    requires
        p.wf(),
        0 <= p.midi() <= 127,
        0 <= p.midi() + n <= 127,
    ensures
        p.transposed(n).transposed(-n) == p,
{
}

} // verus!
