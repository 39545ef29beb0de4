//! The transformation algebra: what a transformation token asks for, and
//! what it makes of a sequence of notes.

use crate::number::{
    clamp_int, decimal_value, integer_in, parse_decimal, parse_integer, DECIMAL_LIMIT,
};
use crate::pitch::{
    all_wf, from_wide_frequency, lemma_frequency_kept, note_of_frequency, transpose_far,
    transpose_wide, Note, HIGHEST_MIDI, LOWEST_MIDI,
};
use crate::text::{chars_of, first_word, spells, word_ranges, words};
use vstd::prelude::*;

verus! {

/// The interval of the just major second, 9/8, in thousandths of a cent.
pub const JUST_SECOND: i64 = 203_910;

/// The interval of the just major third, 5/4, in thousandths of a cent.
pub const JUST_THIRD: i64 = 386_314;

/// The interval of the just fourth, 4/3, in thousandths of a cent.
pub const JUST_FOURTH: i64 = 498_045;

/// The interval of the just fifth, 3/2, in thousandths of a cent.
pub const JUST_FIFTH: i64 = 701_955;

/// The interval of the just major sixth, 5/3, in thousandths of a cent.
pub const JUST_SIXTH: i64 = 884_359;

/// The interval of the just major seventh, 15/8, in thousandths of a cent.
pub const JUST_SEVENTH: i64 = 1_088_269;

/// What a transformation token asks for.
#[derive(Clone, Copy, Debug, PartialEq, Eq, Structural)]
pub enum Transform {
    /// `+n`, `-n`: move every note by this many semitones.
    Semitones(i64),
    /// `*r`: multiply every frequency by `r`, held in millionths.
    Ratio(i64),
    /// `xc`, `xct`: move every note by this many thousandths of a cent.
    Cents(i32),
    /// `inv`: mirror every note around the first.
    Invert,
    /// `reverse`: the same notes, last first.
    Reverse,
    /// `spread`: each note an octave further up than the one before it.
    Spread,
    /// `just`: the just-intonation scale on the first note.
    Just,
    /// `edoN`: the octave above the first note in this many equal steps.
    Edo(u32),
    /// Any other token, and any of the above whose number is malformed:
    /// the notes stay as they are.
    Keep,
}

/// Whether `w` ends in `c` or in `ct`: the mark of an amount in cents.
pub open spec fn ends_in_cents(w: Seq<char>) -> bool {
    (w.len() >= 1 && w[w.len() - 1] == 'c') || (w.len() >= 2 && w[w.len() - 2] == 'c' && w[w.len()
        - 1] == 't')
}

/// What stands before the mark of a word that ends in `ct` or in `c`: the
/// amount.
pub open spec fn cents_amount(w: Seq<char>) -> Seq<char> {
    if w.len() >= 2 && w[w.len() - 2] == 'c' && w[w.len() - 1] == 't' {
        w.take(w.len() - 2)
    } else {
        w.take(w.len() - 1)
    }
}

/// Whether `w` begins with `edo`.
pub open spec fn begins_edo(w: Seq<char>) -> bool {
    w.len() >= 3 && w[0] == 'e' && w[1] == 'd' && w[2] == 'o'
}

/// What the single word `w` asks for. The forms are tried in this order and
/// the first that fits decides; a form whose number is malformed asks for
/// nothing.
pub open spec fn word_transform(w: Seq<char>) -> Transform {
    if w.len() == 0 {
        Transform::Keep
    } else if w[0] == '+' {
        match integer_in(w.skip(1), true, i32::MIN as int, i32::MAX as int) {
            Some(n) => Transform::Semitones(n as i64),
            None => Transform::Keep,
        }
    } else if w[0] == '-' {
        match integer_in(w.skip(1), true, i32::MIN as int, i32::MAX as int) {
            Some(n) => Transform::Semitones((-n) as i64),
            None => Transform::Keep,
        }
    } else if w[0] == '*' {
        match decimal_value(w.skip(1), 6) {
            Some(v) => Transform::Ratio(clamp_int(v, -DECIMAL_LIMIT, DECIMAL_LIMIT as int) as i64),
            None => Transform::Keep,
        }
    } else if ends_in_cents(w) {
        match decimal_value(cents_amount(w), 3) {
            Some(v) => Transform::Cents(clamp_int(v, i32::MIN as int, i32::MAX as int) as i32),
            None => Transform::Keep,
        }
    } else if w == "inv"@ {
        Transform::Invert
    } else if w == "reverse"@ {
        Transform::Reverse
    } else if w == "spread"@ {
        Transform::Spread
    } else if w == "just"@ {
        Transform::Just
    } else if begins_edo(w) {
        match integer_in(w.skip(3), false, 0, u32::MAX as int) {
            Some(n) => Transform::Edo(n as u32),
            None => Transform::Keep,
        }
    } else {
        Transform::Keep
    }
}

/// What the transformation text `t` asks for: its first word decides, and
/// a text without a word asks for nothing.
pub open spec fn transform_of(t: Seq<char>) -> Transform {
    word_transform(first_word(t))
}

/// The interval of step `k` of the just-intonation scale above its root.
pub open spec fn just_step(k: int) -> int {
    if k == 1 {
        JUST_SECOND as int
    } else if k == 2 {
        JUST_THIRD as int
    } else if k == 3 {
        JUST_FOURTH as int
    } else if k == 4 {
        JUST_FIFTH as int
    } else if k == 5 {
        JUST_SIXTH as int
    } else if k == 6 {
        JUST_SEVENTH as int
    } else {
        0
    }
}

/// What `t` makes of `notes`. `ratio` is the interval, in thousandths of a
/// cent, that the ratio of a `Ratio` spans; no other form reads it.
pub open spec fn applied(notes: Seq<Note>, t: Transform, ratio: int) -> Seq<Note> {
    match t {
        Transform::Keep => notes,
        Transform::Semitones(n) => Seq::new(notes.len(), |i: int| notes[i].transposed(n as int)),
        Transform::Ratio(_) => Seq::new(notes.len(), |i: int| notes[i].scaled(ratio)),
        Transform::Cents(c) => Seq::new(notes.len(), |i: int| notes[i].retuned(c as int)),
        Transform::Invert => Seq::new(
            notes.len(),
            |i: int| note_of_frequency(2 * notes[0].frequency() - notes[i].frequency()),
        ),
        Transform::Reverse => Seq::new(notes.len(), |i: int| notes[notes.len() - 1 - i]),
        Transform::Spread => Seq::new(notes.len(), |i: int| notes[i].transposed(12 * i)),
        Transform::Just => if notes.len() == 0 {
            notes
        } else {
            Seq::new(
                7,
                |k: int|
                    if k == 0 {
                        notes[0]
                    } else {
                        notes[0].scaled(just_step(k))
                    },
            )
        },
        Transform::Edo(n) => if notes.len() == 0 || n == 0 {
            notes
        } else {
            Seq::new(n as nat, |i: int| notes[0].scaled(1_200_000 * i / (n as int)))
        },
    }
}

/// What the single word `w` asks for.
pub fn transform_of_word(w: &[char]) -> (t: Transform)
    ensures
        t == word_transform(w@),
{
    let n = w.len();
    if n == 0 {
        return Transform::Keep;
    }
    let first = w[0];
    if first == '+' || first == '-' {
        let payload = &w[1..n];
        assert(payload@ =~= w@.skip(1));
        return match parse_integer(payload, true, -2_147_483_648, 2_147_483_647) {
            Some(v) => if first == '+' {
                Transform::Semitones(v)
            } else {
                Transform::Semitones(-v)
            },
            None => Transform::Keep,
        };
    }
    if first == '*' {
        let payload = &w[1..n];
        assert(payload@ =~= w@.skip(1));
        return match parse_decimal(payload, 6) {
            Some(v) => Transform::Ratio(v),
            None => Transform::Keep,
        };
    }
    if w[n - 1] == 'c' || (n >= 2 && w[n - 2] == 'c' && w[n - 1] == 't') {
        let e: usize = if n >= 2 && w[n - 2] == 'c' && w[n - 1] == 't' {
            n - 2
        } else {
            n - 1
        };
        let payload = &w[0..e];
        assert(payload@ =~= w@.take(e as int));
        return match parse_decimal(payload, 3) {
            Some(v) => Transform::Cents(
                if v < -2_147_483_648 {
                    -2_147_483_648
                } else if v > 2_147_483_647 {
                    2_147_483_647
                } else {
                    v as i32
                },
            ),
            None => Transform::Keep,
        };
    }
    if spells(w, "inv") {
        return Transform::Invert;
    }
    if spells(w, "reverse") {
        return Transform::Reverse;
    }
    if spells(w, "spread") {
        return Transform::Spread;
    }
    if spells(w, "just") {
        return Transform::Just;
    }
    if n >= 3 && w[0] == 'e' && w[1] == 'd' && w[2] == 'o' {
        let payload = &w[3..n];
        assert(payload@ =~= w@.skip(3));
        return match parse_integer(payload, false, 0, 4_294_967_295) {
            Some(v) => Transform::Edo(v as u32),
            None => Transform::Keep,
        };
    }
    Transform::Keep
}

/// What the transformation text `transform` asks for.
pub fn parse_transform(transform: &str) -> (t: Transform)
    ensures
        t == transform_of(transform@),
{
    let chars = chars_of(transform);
    let ranges = word_ranges(chars.as_slice());
    if ranges.len() == 0 {
        assert(words(transform@).len() == 0);
        return Transform::Keep;
    }
    let (a, b) = ranges[0];
    let word = &chars.as_slice()[a..b];
    assert(word@ == words(transform@)[0]);
    transform_of_word(word)
}

/// The interval of step `k` of the just-intonation scale above its root.
fn just_interval(k: usize) -> (step: i64)
    requires
        1 <= k <= 6,
    ensures
        step == just_step(k as int),
{
    if k == 1 {
        JUST_SECOND
    } else if k == 2 {
        JUST_THIRD
    } else if k == 3 {
        JUST_FOURTH
    } else if k == 4 {
        JUST_FIFTH
    } else if k == 5 {
        JUST_SIXTH
    } else {
        JUST_SEVENTH
    }
}

/// The notes as they are.
fn copied(notes: &[Note]) -> (out: Vec<Note>)
    ensures
        out@ == notes@,
{
    let n = notes.len();
    let mut out: Vec<Note> = Vec::new();
    let mut i: usize = 0;
    while i < n
        invariant
            n == notes.len(),
            i <= n,
            out@ == notes@.take(i as int),
        decreases n - i,
    {
        out.push(notes[i]);
        assert(notes@.take(i + 1) =~= notes@.take(i as int).push(notes@[i as int]));
        i += 1;
    }
    assert(notes@.take(n as int) =~= notes@);
    out
}

/// What `t` makes of `notes`. `ratio` is the interval, in thousandths of a
/// cent, that the ratio of a `Transform::Ratio` spans; no other form reads
/// it.
pub fn apply(notes: &[Note], t: Transform, ratio: i64) -> (out: Vec<Note>)
    ensures
        out@ == applied(notes@, t, ratio as int),
        all_wf(notes@) ==> all_wf(out@),
{
    let n = notes.len();
    let mut out: Vec<Note> = Vec::new();
    match t {
        Transform::Keep => {
            out = copied(notes);
        },
        Transform::Semitones(amount) => {
            let mut i: usize = 0;
            while i < n
                invariant
                    n == notes.len(),
                    i <= n,
                    out.len() == i,
                    forall|j: int|
                        0 <= j < i ==> out[j] == (#[trigger] notes[j]).transposed(amount as int),
                    all_wf(out@),
                decreases n - i,
            {
                out.push(transpose_wide(&notes[i], amount));
                i += 1;
            }
            assert(out@ =~= applied(notes@, t, ratio as int));
        },
        Transform::Ratio(_) => {
            let mut i: usize = 0;
            while i < n
                invariant
                    n == notes.len(),
                    i <= n,
                    out.len() == i,
                    forall|j: int|
                        0 <= j < i ==> out[j] == (#[trigger] notes[j]).scaled(ratio as int),
                    all_wf(out@),
                decreases n - i,
            {
                out.push(notes[i].multiply_freq(ratio));
                i += 1;
            }
            assert(out@ =~= applied(notes@, t, ratio as int));
        },
        Transform::Cents(amount) => {
            let mut i: usize = 0;
            while i < n
                invariant
                    n == notes.len(),
                    i <= n,
                    out.len() == i,
                    forall|j: int|
                        0 <= j < i ==> out[j] == (#[trigger] notes[j]).retuned(amount as int),
                    all_wf(out@),
                decreases n - i,
            {
                out.push(notes[i].transpose_cents(amount));
                i += 1;
            }
            assert(out@ =~= applied(notes@, t, ratio as int));
        },
        Transform::Invert => {
            let mut i: usize = 0;
            while i < n
                invariant
                    n == notes.len(),
                    i <= n,
                    out.len() == i,
                    forall|j: int|
                        0 <= j < i ==> out[j] == note_of_frequency(
                            2 * notes[0].frequency() - (#[trigger] notes[j]).frequency(),
                        ),
                    all_wf(out@),
                decreases n - i,
            {
                let pivot = notes[0].to_frequency() as i128;
                out.push(from_wide_frequency(2 * pivot - notes[i].to_frequency() as i128));
                i += 1;
            }
            assert(out@ =~= applied(notes@, t, ratio as int));
        },
        Transform::Reverse => {
            let mut i: usize = 0;
            while i < n
                invariant
                    n == notes.len(),
                    i <= n,
                    out.len() == i,
                    forall|j: int| 0 <= j < i ==> #[trigger] out[j] == notes[n - 1 - j],
                decreases n - i,
            {
                out.push(notes[n - 1 - i]);
                i += 1;
            }
            assert(out@ =~= applied(notes@, t, ratio as int));
        },
        Transform::Spread => {
            let mut i: usize = 0;
            while i < n
                invariant
                    n == notes.len(),
                    i <= n,
                    out.len() == i,
                    forall|j: int|
                        0 <= j < i ==> out[j] == (#[trigger] notes[j]).transposed(12 * j),
                    all_wf(out@),
                decreases n - i,
            {
                // No sequence is long enough for this product to leave 128 bits.
                let up: i128 = 12 * (i as i128);
                out.push(transpose_far(&notes[i], up));
                i += 1;
            }
            assert(out@ =~= applied(notes@, t, ratio as int));
        },
        Transform::Just => {
            if n > 0 {
                let root = notes[0];
                out.push(root);
                let mut k: usize = 1;
                while k < 7
                    invariant
                        n == notes.len(),
                        n > 0,
                        root == notes[0],
                        1 <= k <= 7,
                        out.len() == k,
                        out[0] == root,
                        forall|j: int| 1 <= j < k ==> #[trigger] out[j] == root.scaled(just_step(j)),
                        forall|j: int| 1 <= j < k ==> (#[trigger] out[j]).wf(),
                    decreases 7 - k,
                {
                    out.push(root.multiply_freq(just_interval(k)));
                    k += 1;
                }
                assert(out@ =~= applied(notes@, t, ratio as int));
            }
        },
        Transform::Edo(divisions) => {
            if n > 0 && divisions > 0 {
                let root = notes[0];
                let mut i: u32 = 0;
                while i < divisions
                    invariant
                        n == notes.len(),
                        n > 0,
                        root == notes[0],
                        i <= divisions,
                        divisions > 0,
                        out.len() == i,
                        forall|j: int|
                            0 <= j < i ==> #[trigger] out[j] == root.scaled(
                                1_200_000 * j / (divisions as int),
                            ),
                        all_wf(out@),
                    decreases divisions - i,
                {
                    let step: i64 = (1_200_000 * (i as u64) / (divisions as u64)) as i64;
                    out.push(root.multiply_freq(step));
                    i += 1;
                }
                assert(out@ =~= applied(notes@, t, ratio as int));
            } else {
                out = copied(notes);
            }
        },
    }
    out
}

/// What the transformation text `transform` makes of `notes`: one pass, and
/// a text that asks for nothing, or whose number is malformed, hands the
/// notes back as they are. `ratio` is the interval, in thousandths of a
/// cent, that the ratio of a `*` token spans; no other token reads it.
pub fn apply_transformation(notes: &[Note], transform: &str, ratio: i64) -> (out: Vec<Note>)
    ensures
        out@ == applied(notes@, transform_of(transform@), ratio as int),
        transform_of(transform@) == Transform::Keep ==> out@ == notes@,
        all_wf(notes@) ==> all_wf(out@),
{
    apply(notes, parse_transform(transform), ratio)
}

/// A token whose number is malformed changes nothing: whatever the notes,
/// a `+`, `-` or `*` token whose payload is no number, and a token in `c` or
/// `ct` whose amount is none, hand them back as they are.
pub proof fn lemma_fail_soft(notes: Seq<Note>, w: Seq<char>, ratio: int)
    requires
        w.len() > 0,
        ({
            ||| ((w[0] == '+' || w[0] == '-') && integer_in(
                w.skip(1),
                true,
                i32::MIN as int,
                i32::MAX as int,
            ) is None)
            ||| (w[0] == '*' && decimal_value(w.skip(1), 6) is None)
            ||| (w[0] != '+' && w[0] != '-' && w[0] != '*' && ends_in_cents(w) && decimal_value(
                cents_amount(w),
                3,
            ) is None)
        }),
    ensures
        word_transform(w) == Transform::Keep,
        applied(notes, word_transform(w), ratio) == notes,
{
}

/// Reversing twice gives the sequence itself.
pub proof fn lemma_reverse_twice(notes: Seq<Note>, ratio: int)
    ensures
        applied(applied(notes, Transform::Reverse, ratio), Transform::Reverse, ratio) == notes,
{
    assert(applied(applied(notes, Transform::Reverse, ratio), Transform::Reverse, ratio)
        =~= notes);
}

/// The just-intonation scale has seven notes, the first of them the root,
/// and step `k` sounds at the root's frequency raised by the interval of
/// that step, as long as that is a position a note can stand for.
pub proof fn lemma_just_scale(notes: Seq<Note>, ratio: int, k: int)
    requires
        notes.len() > 0,
        notes[0].wf(),
        0 <= k < 7,
        LOWEST_MIDI * 100_000 <= notes[0].frequency() + just_step(k) < (HIGHEST_MIDI + 1)
            * 100_000,
    ensures
        applied(notes, Transform::Just, ratio).len() == 7,
        applied(notes, Transform::Just, ratio)[0] == notes[0],
        applied(notes, Transform::Just, ratio)[k].frequency() == notes[0].frequency() + just_step(
            k,
        ),
{
    lemma_frequency_kept(notes[0].frequency() + just_step(k));
}

/// Equal division into `n` steps gives `n` notes, and note `i` sounds at
/// the root's frequency raised by `i` of `n` equal parts of an octave,
/// rounded down to the unit, as long as the octave above the root holds
/// only positions that a note can stand for.
pub proof fn lemma_equal_division(notes: Seq<Note>, n: u32, ratio: int, i: int)
    requires
        notes.len() > 0,
        n > 0,
        0 <= i < n,
        LOWEST_MIDI * 100_000 <= notes[0].frequency(),
        notes[0].frequency() + 1_200_000 <= (HIGHEST_MIDI + 1) * 100_000,
    ensures
        applied(notes, Transform::Edo(n), ratio).len() == n,
        applied(notes, Transform::Edo(n), ratio)[i].frequency() == notes[0].frequency() + 1_200_000
            * i / (n as int),
        0 <= 1_200_000 * i / (n as int) < 1_200_000,
{
    let step = 1_200_000 * i / (n as int);
    assert(0 <= step < 1_200_000) by (nonlinear_arith)
        requires
            step == 1_200_000 * i / (n as int),
            0 <= i < n,
    ;
    lemma_frequency_kept(notes[0].frequency() + step);
}

} // verus!
