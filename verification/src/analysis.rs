//! The interval and chord analyzer: the notes in ascending order, their
//! distances from the lowest and from one another, and the kind of chord
//! that they form.

use crate::number::{int_text, push_int};
use crate::pitch::{all_wf, Note};
use vstd::prelude::*;
use vstd::string::*;

verus! {

/// The name of an interval of `k` semitones within the octave.
pub open spec fn interval_label(k: int) -> Seq<char> {
    if k == 0 {
        "P1 (unison)"@
    } else if k == 1 {
        "m2 (minor 2nd)"@
    } else if k == 2 {
        "M2 (major 2nd)"@
    } else if k == 3 {
        "m3 (minor 3rd)"@
    } else if k == 4 {
        "M3 (major 3rd)"@
    } else if k == 5 {
        "P4 (perfect 4th)"@
    } else if k == 6 {
        "TT (tritone)"@
    } else if k == 7 {
        "P5 (perfect 5th)"@
    } else if k == 8 {
        "m6 (minor 6th)"@
    } else if k == 9 {
        "M6 (major 6th)"@
    } else if k == 10 {
        "m7 (minor 7th)"@
    } else {
        "M7 (major 7th)"@
    }
}

/// The size of an interval of `semitones` within the octave: its direction
/// is dropped and whole octaves are taken out.
pub open spec fn interval_class(semitones: int) -> int {
    (if semitones < 0 {
        -semitones
    } else {
        semitones
    }) % 12
}

/// The name of the interval of `semitones`, whatever its direction and
/// however many octaves it spans.
pub fn interval_name(semitones: i32) -> (name: &'static str)
    ensures
        name@ == interval_label(interval_class(semitones as int)),
{
    let size: i64 = if semitones < 0 {
        -(semitones as i64)
    } else {
        semitones as i64
    };
    match size % 12 {
        0 => "P1 (unison)",
        1 => "m2 (minor 2nd)",
        2 => "M2 (major 2nd)",
        3 => "m3 (minor 3rd)",
        4 => "M3 (major 3rd)",
        5 => "P4 (perfect 4th)",
        6 => "TT (tritone)",
        7 => "P5 (perfect 5th)",
        8 => "m6 (minor 6th)",
        9 => "M6 (major 6th)",
        10 => "m7 (minor 7th)",
        _ => "M7 (major 7th)",
    }
}

/// `x` put into `s` behind the last note that is not higher than `x`,
/// looking from the end.
pub open spec fn inserted(s: Seq<Note>, x: Note) -> Seq<Note>
    decreases s.len(),
{
    if s.len() == 0 {
        seq![x]
    } else if s.last().midi() <= x.midi() {
        s.push(x)
    } else {
        inserted(s.drop_last(), x).push(s.last())
    }
}

/// The notes of `s` in ascending order of MIDI number, notes of one MIDI
/// number in the order in which `s` has them.
pub open spec fn sorted_by_midi(s: Seq<Note>) -> Seq<Note>
    decreases s.len(),
{
    if s.len() == 0 {
        s
    } else {
        inserted(sorted_by_midi(s.drop_last()), s.last())
    }
}

/// No note of `s` stands before a lower one.
pub open spec fn ascending(s: Seq<Note>) -> bool {
    forall|i: int, j: int| 0 <= i <= j < s.len() ==> s[i].midi() <= s[j].midi()
}

/// The notes of `s` whose MIDI number is `k`, in the order in which `s` has
/// them.
pub open spec fn at_midi(s: Seq<Note>, k: int) -> Seq<Note>
    decreases s.len(),
{
    if s.len() == 0 {
        s
    } else if s.last().midi() == k {
        at_midi(s.drop_last(), k).push(s.last())
    } else {
        at_midi(s.drop_last(), k)
    }
}

/// Where the notes from `p` on are higher than `x` and the one before `p`
/// is not, `inserted` puts `x` at `p`.
pub proof fn lemma_inserted_at(s: Seq<Note>, x: Note, p: int)
    requires
        0 <= p <= s.len(),
        forall|j: int| p <= j < s.len() ==> (#[trigger] s[j]).midi() > x.midi(),
        p > 0 ==> s[p - 1].midi() <= x.midi(),
    ensures
        inserted(s, x) == s.insert(p, x),
    decreases s.len(),
{
    if s.len() == 0 {
        assert(seq![x] =~= s.insert(p, x));
    } else if p == s.len() {
        assert(s.push(x) =~= s.insert(p, x));
    } else {
        let front = s.drop_last();
        assert(s.last() == s[s.len() - 1]);
        assert forall|j: int| p <= j < front.len() implies (#[trigger] front[j]).midi()
            > x.midi() by {
            assert(front[j] == s[j]);
        }
        lemma_inserted_at(front, x, p);
        assert(front.insert(p, x).push(s.last()) =~= s.insert(p, x));
    }
}

/// Putting a note into an ascending sequence leaves it ascending, makes it
/// one longer, and adds that note and no other.
pub proof fn lemma_inserted(s: Seq<Note>, x: Note)
    requires
        ascending(s),
    ensures
        ascending(inserted(s, x)),
        inserted(s, x).len() == s.len() + 1,
        inserted(s, x).to_multiset() == s.to_multiset().insert(x),
        all_wf(s) && x.wf() ==> all_wf(inserted(s, x)),
    decreases s.len(),
{
    broadcast use vstd::seq_lib::group_to_multiset_ensures;

    if s.len() == 0 {
        assert(s =~= Seq::<Note>::empty());
        assert(seq![x] =~= Seq::<Note>::empty().push(x));
    } else if s.last().midi() <= x.midi() {
    } else {
        let front = s.drop_last();
        lemma_inserted(front, x);
        let mid = inserted(front, x);
        let out = mid.push(s.last());
        assert(s =~= front.push(s.last()));
        assert(out.to_multiset() =~= s.to_multiset().insert(x));
        assert forall|i: int, j: int| 0 <= i <= j < out.len() implies out[i].midi()
            <= out[j].midi() by {
            if j == out.len() - 1 {
                if i < j {
                    // Every note of `mid` is `x` or a note of `front`.
                    assert(mid.to_multiset().count(mid[i]) > 0);
                    if mid[i] != x {
                        assert(front.to_multiset().count(mid[i]) > 0);
                        let k = choose|k: int| 0 <= k < front.len() && front[k] == mid[i];
                        assert(s[k] == front[k]);
                    }
                }
            }
        }
    }
}

/// Sorting gives the same notes, each as often as before, in ascending
/// order.
pub proof fn lemma_sorted_by_midi(s: Seq<Note>)
    ensures
        ascending(sorted_by_midi(s)),
        sorted_by_midi(s).len() == s.len(),
        sorted_by_midi(s).to_multiset() == s.to_multiset(),
        all_wf(s) ==> all_wf(sorted_by_midi(s)),
    decreases s.len(),
{
    broadcast use vstd::seq_lib::group_to_multiset_ensures;

    if s.len() > 0 {
        let front = s.drop_last();
        lemma_sorted_by_midi(front);
        lemma_inserted(sorted_by_midi(front), s.last());
        assert(s =~= front.push(s.last()));
        if all_wf(s) {
            assert(s.last() == s[s.len() - 1]);
            assert forall|i: int| 0 <= i < front.len() implies (#[trigger] front[i]).wf() by {
                assert(front[i] == s[i]);
            }
        }
    }
}

/// Putting a note into a sequence leaves the notes of every MIDI number in
/// their order, and puts the new note behind those of its own.
pub proof fn lemma_inserted_is_stable(s: Seq<Note>, x: Note, k: int)
    ensures
        at_midi(inserted(s, x), k) == if x.midi() == k {
            at_midi(s, k).push(x)
        } else {
            at_midi(s, k)
        },
    decreases s.len(),
{
    if s.len() == 0 {
        assert(seq![x].drop_last() =~= s);
    } else if s.last().midi() <= x.midi() {
        assert(s.push(x).drop_last() =~= s);
    } else {
        let front = s.drop_last();
        lemma_inserted_is_stable(front, x, k);
        assert(inserted(front, x).push(s.last()).drop_last() =~= inserted(front, x));
    }
}

/// Sorting is stable: the notes of every MIDI number come out in the order
/// in which they went in.
pub proof fn lemma_sorting_is_stable(s: Seq<Note>, k: int)
    ensures
        at_midi(sorted_by_midi(s), k) == at_midi(s, k),
    decreases s.len(),
{
    if s.len() > 0 {
        lemma_sorting_is_stable(s.drop_last(), k);
        lemma_inserted_is_stable(sorted_by_midi(s.drop_last()), s.last(), k);
    }
}

/// The notes in ascending order of MIDI number; notes of one MIDI number
/// keep the order in which they came.
pub fn sort_notes(notes: &[Note]) -> (out: Vec<Note>)
    ensures
        out@ == sorted_by_midi(notes@),
        ascending(out@),
        out.len() == notes.len(),
        out@.to_multiset() == notes@.to_multiset(),
        all_wf(notes@) ==> all_wf(out@),
{
    let n = notes.len();
    let mut out: Vec<Note> = Vec::new();
    let mut i: usize = 0;
    assert(notes@.take(0) =~= Seq::<Note>::empty());
    while i < n
        invariant
            n == notes.len(),
            i <= n,
            out@ == sorted_by_midi(notes@.take(i as int)),
            out.len() == i,
        decreases n - i,
    {
        let x = notes[i];
        let key = x.to_midi();
        let mut p: usize = i;
        while p > 0 && out[p - 1].to_midi() > key
            invariant
                p <= i,
                out.len() == i,
                key == x.midi(),
                forall|j: int| p <= j < i ==> (#[trigger] out[j]).midi() > x.midi(),
            decreases p,
        {
            p -= 1;
        }
        proof {
            lemma_inserted_at(out@, x, p as int);
            assert(notes@.take(i + 1).drop_last() =~= notes@.take(i as int));
            assert(notes@.take(i + 1).last() == x);
        }
        out.insert(p, x);
        i += 1;
    }
    proof {
        assert(notes@.take(n as int) =~= notes@);
        lemma_sorted_by_midi(notes@);
    }
    out
}

/// The report line for `note` against the lowest note `root`: both notes,
/// the distance in semitones and the name of the interval.
pub open spec fn root_line(root: Note, note: Note) -> Seq<char> {
    "  "@ + root.text() + " \u{2192} "@ + note.text() + ": "@ + int_text(note.midi() - root.midi())
        + " semitones ("@ + interval_label(interval_class(note.midi() - root.midi())) + ")\n"@
}

/// The lines of the notes `sorted[1]` to `sorted[upto - 1]`, each against
/// `sorted[0]`.
pub open spec fn root_lines(sorted: Seq<Note>, upto: int) -> Seq<char>
    decreases upto,
{
    if upto <= 1 {
        Seq::empty()
    } else {
        root_lines(sorted, upto - 1) + root_line(sorted[0], sorted[upto - 1])
    }
}

/// The report line for two neighbours: both notes and the distance in
/// semitones from `a` up to `b`.
pub open spec fn step_line(a: Note, b: Note) -> Seq<char> {
    "  "@ + a.text() + " \u{2192} "@ + b.text() + ": "@ + int_text(b.midi() - a.midi())
        + " semitones\n"@
}

/// The lines of the first `pairs` pairs of neighbours in `sorted`.
pub open spec fn step_lines(sorted: Seq<Note>, pairs: int) -> Seq<char>
    decreases pairs,
{
    if pairs <= 0 {
        Seq::empty()
    } else {
        step_lines(sorted, pairs - 1) + step_line(sorted[pairs - 1], sorted[pairs])
    }
}

/// The interval report on `sorted`, notes in ascending order: from two
/// notes on, the distance of each from the lowest, and then the distance
/// between each two neighbours.
pub open spec fn interval_report(sorted: Seq<Note>) -> Seq<char> {
    if sorted.len() > 1 {
        "Intervals from root:\n"@ + root_lines(sorted, sorted.len() as int)
            + "\nConsecutive intervals:\n"@ + step_lines(sorted, sorted.len() - 1)
    } else {
        Seq::empty()
    }
}

/// The interval report on `notes`, which need not be in order.
pub open spec fn chord_report(notes: Seq<Note>) -> Seq<char> {
    interval_report(sorted_by_midi(notes))
}

/// The kinds of chord that the analyzer tells apart.
#[derive(Clone, Copy, Debug, PartialEq, Eq, Structural)]
pub enum Chord {
    MajorTriad,
    MinorTriad,
    MajorSeventh,
    MinorSeventh,
    DominantSeventh,
    DiminishedTriad,
    AugmentedTriad,
    Sus2,
    Sus4,
    Unknown,
}

/// Distance of `sorted[i]` from `sorted[0]`, whole octaves taken out.
pub open spec fn above_root(sorted: Seq<Note>, i: int) -> int {
    (sorted[i].midi() - sorted[0].midi()) % 12
}

/// The smallest of three numbers.
pub open spec fn least(a: int, b: int, c: int) -> int {
    if a <= b && a <= c {
        a
    } else if b <= c {
        b
    } else {
        c
    }
}

/// The largest of three numbers.
pub open spec fn greatest(a: int, b: int, c: int) -> int {
    if a >= b && a >= c {
        a
    } else if b >= c {
        b
    } else {
        c
    }
}

/// The kind of triad whose upper notes stand `low` and `high` semitones
/// above the root within the octave, `low` no larger than `high`.
pub open spec fn triad_of(low: int, high: int) -> Chord {
    if low == 4 && high == 7 {
        Chord::MajorTriad
    } else if low == 3 && high == 7 {
        Chord::MinorTriad
    } else if low == 3 && high == 6 {
        Chord::DiminishedTriad
    } else if low == 4 && high == 8 {
        Chord::AugmentedTriad
    } else if low == 2 && high == 7 {
        Chord::Sus2
    } else if low == 5 && high == 7 {
        Chord::Sus4
    } else {
        Chord::Unknown
    }
}

/// The kind of seventh chord whose upper notes stand `low`, `mid` and
/// `high` semitones above the root within the octave, in ascending order.
pub open spec fn seventh_of(low: int, mid: int, high: int) -> Chord {
    if low == 4 && mid == 7 && high == 11 {
        Chord::MajorSeventh
    } else if low == 3 && mid == 7 && high == 10 {
        Chord::MinorSeventh
    } else if low == 4 && mid == 7 && high == 10 {
        Chord::DominantSeventh
    } else {
        Chord::Unknown
    }
}

/// The kind of chord that the notes `sorted`, in ascending order, form. The
/// lowest note is the root; the distances of the others from it, whole
/// octaves taken out, are put in ascending order and looked up. So a chord
/// is known in any voicing above its root, and equal distances stay apart.
pub open spec fn chord_of(sorted: Seq<Note>) -> Chord {
    if sorted.len() == 3 {
        let a = above_root(sorted, 1);
        let b = above_root(sorted, 2);
        if a <= b {
            triad_of(a, b)
        } else {
            triad_of(b, a)
        }
    } else if sorted.len() == 4 {
        let a = above_root(sorted, 1);
        let b = above_root(sorted, 2);
        let c = above_root(sorted, 3);
        seventh_of(least(a, b, c), a + b + c - least(a, b, c) - greatest(a, b, c), greatest(a, b, c))
    } else {
        Chord::Unknown
    }
}

/// The label of a kind of chord.
pub open spec fn chord_label(chord: Chord) -> Seq<char> {
    match chord {
        Chord::MajorTriad => "Major triad"@,
        Chord::MinorTriad => "Minor triad"@,
        Chord::MajorSeventh => "Major 7th"@,
        Chord::MinorSeventh => "Minor 7th"@,
        Chord::DominantSeventh => "Dominant 7th"@,
        Chord::DiminishedTriad => "Diminished triad"@,
        Chord::AugmentedTriad => "Augmented triad"@,
        Chord::Sus2 => "Sus2"@,
        Chord::Sus4 => "Sus4"@,
        Chord::Unknown => "Unknown chord type"@,
    }
}

/// The chord line of the report on `notes`: empty under three notes.
pub open spec fn chord_line(notes: Seq<Note>) -> Seq<char> {
    if notes.len() < 3 {
        Seq::empty()
    } else {
        "\nChord type: "@ + chord_label(chord_of(sorted_by_midi(notes))) + "\n"@
    }
}

impl Chord {
    /// The label of this kind of chord.
    pub fn label(&self) -> (label: &'static str)
        ensures
            label@ == chord_label(*self),
    {
        match self {
            Chord::MajorTriad => "Major triad",
            Chord::MinorTriad => "Minor triad",
            Chord::MajorSeventh => "Major 7th",
            Chord::MinorSeventh => "Minor 7th",
            Chord::DominantSeventh => "Dominant 7th",
            Chord::DiminishedTriad => "Diminished triad",
            Chord::AugmentedTriad => "Augmented triad",
            Chord::Sus2 => "Sus2",
            Chord::Sus4 => "Sus4",
            Chord::Unknown => "Unknown chord type",
        }
    }
}

/// Appends the interval report on `sorted` to `out`.
fn write_intervals(out: &mut String, sorted: &Vec<Note>)
    requires
        all_wf(sorted@),
    ensures
        final(out)@ == old(out)@ + interval_report(sorted@),
{
    let n = sorted.len();
    if n <= 1 {
        assert(out@ =~= old(out)@ + interval_report(sorted@));
        return ;
    }
    out.append("Intervals from root:\n");
    let ghost head = out@;
    let root = sorted[0];
    let mut i: usize = 1;
    while i < n
        invariant
            n == sorted.len(),
            1 <= i <= n,
            root == sorted[0],
            all_wf(sorted@),
            out@ == head + root_lines(sorted@, i as int),
        decreases n - i,
    {
        let note = sorted[i];
        let distance = root.interval_to(&note);
        let ghost before = out@;
        out.append("  ");
        root.write_to(out);
        out.append(" \u{2192} ");
        note.write_to(out);
        out.append(": ");
        push_int(out, distance as i64);
        out.append(" semitones (");
        out.append(interval_name(distance));
        out.append(")\n");
        assert(out@ =~= before + root_line(root, note));
        assert(out@ =~= head + root_lines(sorted@, i + 1));
        i += 1;
    }
    out.append("\nConsecutive intervals:\n");
    let ghost middle = out@;
    let mut i: usize = 0;
    while i < n - 1
        invariant
            n == sorted.len(),
            n > 1,
            i <= n - 1,
            all_wf(sorted@),
            out@ == middle + step_lines(sorted@, i as int),
        decreases n - i,
    {
        let a = sorted[i];
        let b = sorted[i + 1];
        let ghost before = out@;
        out.append("  ");
        a.write_to(out);
        out.append(" \u{2192} ");
        b.write_to(out);
        out.append(": ");
        push_int(out, a.interval_to(&b) as i64);
        out.append(" semitones\n");
        assert(out@ =~= before + step_line(a, b));
        assert(out@ =~= middle + step_lines(sorted@, i + 1));
        i += 1;
    }
    assert(out@ =~= old(out)@ + interval_report(sorted@));
}

/// The interval report on `notes`: the notes are put in ascending order;
/// from two notes on, each is measured against the lowest and each against
/// its neighbour. Equal notes are kept apart.
pub fn analyze_chord(notes: &[Note]) -> (report: String)
    requires
        all_wf(notes@),
    ensures
        report@ == chord_report(notes@),
        notes.len() <= 1 ==> report@.len() == 0,
{
    let mut report = String::new();
    let sorted = sort_notes(notes);
    write_intervals(&mut report, &sorted);
    assert(report@ =~= chord_report(notes@));
    report
}

/// The kind of triad for two distances in ascending order.
fn triad(low: i32, high: i32) -> (chord: Chord)
    ensures
        chord == triad_of(low as int, high as int),
{
    if low == 4 && high == 7 {
        Chord::MajorTriad
    } else if low == 3 && high == 7 {
        Chord::MinorTriad
    } else if low == 3 && high == 6 {
        Chord::DiminishedTriad
    } else if low == 4 && high == 8 {
        Chord::AugmentedTriad
    } else if low == 2 && high == 7 {
        Chord::Sus2
    } else if low == 5 && high == 7 {
        Chord::Sus4
    } else {
        Chord::Unknown
    }
}

/// The kind of seventh chord for three distances in ascending order.
fn seventh(low: i32, mid: i32, high: i32) -> (chord: Chord)
    ensures
        chord == seventh_of(low as int, mid as int, high as int),
{
    if low == 4 && mid == 7 && high == 11 {
        Chord::MajorSeventh
    } else if low == 3 && mid == 7 && high == 10 {
        Chord::MinorSeventh
    } else if low == 4 && mid == 7 && high == 10 {
        Chord::DominantSeventh
    } else {
        Chord::Unknown
    }
}

/// The kind of chord that `notes` form, in whatever order and voicing they
/// come above their lowest note.
pub fn classify_chord(notes: &[Note]) -> (chord: Chord)
    ensures
        chord == chord_of(sorted_by_midi(notes@)),
{
    let sorted = sort_notes(notes);
    let n = sorted.len();
    if n != 3 && n != 4 {
        return Chord::Unknown;
    }
    let root = sorted[0];
    assert(ascending(sorted@));
    let a = root.interval_to(&sorted[1]) % 12;
    let b = root.interval_to(&sorted[2]) % 12;
    if n == 3 {
        if a <= b {
            triad(a, b)
        } else {
            triad(b, a)
        }
    } else {
        let c = root.interval_to(&sorted[3]) % 12;
        let low = if a <= b && a <= c {
            a
        } else if b <= c {
            b
        } else {
            c
        };
        let high = if a >= b && a >= c {
            a
        } else if b >= c {
            b
        } else {
            c
        };
        seventh(low, a + b + c - low - high, high)
    }
}

/// The chord line of the report on `notes`: the kind of chord that they
/// form, and nothing under three notes.
pub fn identify_chord_type(notes: &[Note]) -> (line: String)
    ensures
        line@ == chord_line(notes@),
{
    let mut line = String::new();
    if notes.len() >= 3 {
        line.append("\nChord type: ");
        line.append(classify_chord(notes).label());
        line.append("\n");
    }
    assert(line@ =~= chord_line(notes@));
    line
}

} // verus!
