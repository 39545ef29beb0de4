//! One line of input: its notes, the transformation that it asks for, and
//! the report on what comes of them.

use crate::analysis::{analyze_chord, chord_line, chord_report, identify_chord_type};
use crate::number::{digit_char, nat_text, push_nat};
use crate::parse::{note_of_text, parse_note_chars};
use crate::pitch::{all_wf, Note};
use crate::text::{chars_of, joined, pieces, spells, word_ranges, words};
use crate::transform::{applied, apply_transformation, begins_edo, ends_in_cents, transform_of};
use vstd::prelude::*;
use vstd::string::*;

verus! {

/// Whether the word `w` opens the transformation of a line: it begins with
/// `+`, `-`, `*` or `/`, ends in `c` or `ct` without being a note, is one
/// of `inv`, `reverse`, `spread` and `just`, or begins with `edo`. A word
/// that reads as a note, such as a lone `c`, is a note.
pub open spec fn is_operator(w: Seq<char>) -> bool {
    ||| (w.len() > 0 && (w[0] == '+' || w[0] == '-' || w[0] == '*' || w[0] == '/'))
    ||| (ends_in_cents(w) && note_of_text(w) is None)
    ||| w == "inv"@
    ||| w == "reverse"@
    ||| w == "spread"@
    ||| w == "just"@
    ||| begins_edo(w)
}

/// Position of the first operator among the words `ws` from `i` on, or the
/// number of words where there is none.
pub open spec fn operator_at(ws: Seq<Seq<char>>, i: int) -> int
    decreases ws.len() - i,
{
    if 0 <= i < ws.len() && !is_operator(ws[i]) {
        operator_at(ws, i + 1)
    } else {
        i
    }
}

/// The notes that the words `ws` write, in order; a word that is no note
/// is passed over.
pub open spec fn notes_of(ws: Seq<Seq<char>>) -> Seq<Note>
    decreases ws.len(),
{
    if ws.len() == 0 {
        Seq::empty()
    } else {
        match note_of_text(ws.last()) {
            Some(note) => notes_of(ws.drop_last()).push(note),
            None => notes_of(ws.drop_last()),
        }
    }
}

/// The notes of `line`: those that its words write before the first
/// operator.
pub open spec fn line_notes(line: Seq<char>) -> Seq<Note> {
    let ws = words(line);
    notes_of(ws.take(operator_at(ws, 0)))
}

/// The transformation text of `line`: its words from the first operator
/// on, one blank between each two; nothing where it has no operator.
pub open spec fn line_transform(line: Seq<char>) -> Option<Seq<char>> {
    let ws = words(line);
    let k = operator_at(ws, 0);
    if k < ws.len() {
        Some(joined(ws.skip(k)))
    } else {
        None
    }
}

/// The notes that the report on `line` is about: its notes, and where it
/// has a transformation, what that makes of them.
pub open spec fn line_result(line: Seq<char>, ratio: int) -> Seq<Note> {
    match line_transform(line) {
        Some(t) => applied(line_notes(line), transform_of(t), ratio),
        None => line_notes(line),
    }
}

/// The notes `notes` as they are written, one blank between each two.
pub open spec fn notes_text(notes: Seq<Note>) -> Seq<char>
    decreases notes.len(),
{
    if notes.len() == 0 {
        Seq::empty()
    } else if notes.len() == 1 {
        notes[0].text()
    } else {
        notes_text(notes.drop_last()) + " "@ + notes.last().text()
    }
}

/// Whether a note of `notes` deviates by more than a tenth of a cent.
pub open spec fn has_microtones(notes: Seq<Note>) -> bool {
    exists|i: int| 0 <= i < notes.len() && microtonal(#[trigger] notes[i])
}

/// Whether `note` deviates by more than a tenth of a cent.
pub open spec fn microtonal(note: Note) -> bool {
    note.cents > 100 || note.cents < -100
}

/// A frequency of `h` hundredths of a hertz, written in hertz with two
/// decimals.
pub open spec fn hertz_text(h: nat) -> Seq<char> {
    nat_text(h / 100) + "."@ + seq![digit_char((h % 100 / 10) as int), digit_char((h % 10) as int)]
}

/// The frequency line of `note`, whose frequency was read as `h`
/// hundredths of a hertz.
pub open spec fn frequency_line(note: Note, h: nat) -> Seq<char> {
    "  "@ + note.text() + ": "@ + hertz_text(h) + " Hz\n"@
}

/// The frequency lines of the first `upto` notes; a note for which
/// `hertz` holds no reading has no line.
pub open spec fn frequency_lines(notes: Seq<Note>, hertz: Seq<u64>, upto: int) -> Seq<char>
    decreases upto,
{
    if upto <= 0 {
        Seq::empty()
    } else {
        frequency_lines(notes, hertz, upto - 1) + (if upto - 1 < hertz.len() {
            frequency_line(notes[upto - 1], hertz[upto - 1] as nat)
        } else {
            Seq::empty()
        })
    }
}

/// The part of the report that only a line with a transformation has: the
/// transformation, what came of it, and the frequencies where a note of
/// the result is microtonal.
pub open spec fn transform_report(t: Seq<char>, result: Seq<Note>, hertz: Seq<u64>) -> Seq<char> {
    "Transform: "@ + t + "\n"@ + "Result: "@ + notes_text(result) + "\n"@ + (if has_microtones(
        result,
    ) {
        "\nFrequencies (Hz):\n"@ + frequency_lines(result, hertz, result.len() as int)
    } else {
        Seq::empty()
    })
}

/// The report on `line`. A line without notes has none. Else the report
/// names the notes, then the transformation and its result where the line
/// has one, then the intervals and the chord of the notes that came out,
/// between a head and a foot rule.
pub open spec fn line_report(line: Seq<char>, ratio: int, hertz: Seq<u64>) -> Seq<char> {
    let notes = line_notes(line);
    let result = line_result(line, ratio);
    if notes.len() == 0 {
        Seq::empty()
    } else {
        "\u{2550}\u{2550}\u{2550} Analysis \u{2550}\u{2550}\u{2550}\n"@ + "Input: "@ + notes_text(notes) + "\n"@ + (match line_transform(
            line,
        ) {
            Some(t) => transform_report(t, result, hertz),
            None => Seq::empty(),
        }) + chord_report(result) + chord_line(result) + "\u{2550}\u{2550}\u{2550}\u{2550}\u{2550}\u{2550}\u{2550}\u{2550}\u{2550}\u{2550}\u{2550}\u{2550}\u{2550}\u{2550}\u{2550}\n"@
    }
}

/// Whether the word `w` opens the transformation of a line.
pub fn word_is_operator(w: &[char]) -> (b: bool)
    ensures
        b == is_operator(w@),
{
    let n = w.len();
    if n > 0 && (w[0] == '+' || w[0] == '-' || w[0] == '*' || w[0] == '/') {
        return true;
    }
    if ((n >= 1 && w[n - 1] == 'c') || (n >= 2 && w[n - 2] == 'c' && w[n - 1] == 't'))
        && parse_note_chars(w).is_none() {
        return true;
    }
    if spells(w, "inv") || spells(w, "reverse") || spells(w, "spread") || spells(w, "just") {
        return true;
    }
    n >= 3 && w[0] == 'e' && w[1] == 'd' && w[2] == 'o'
}

/// The notes of `input` and its transformation text: the words before the
/// first operator are read as notes, those that are none passed over, and
/// the words from the operator on are the transformation.
pub fn parse_transformation(input: &str) -> (r: (Vec<Note>, Option<String>))
    ensures
        r.0@ == line_notes(input@),
        all_wf(r.0@),
        match r.1 {
            Some(t) => line_transform(input@) == Some(t@),
            None => line_transform(input@) is None,
        },
{
    let chars = chars_of(input);
    let ranges = word_ranges(chars.as_slice());
    let ghost ws = words(input@);
    let count = ranges.len();
    assert(ws.len() == count);
    let mut notes: Vec<Note> = Vec::new();
    let mut i: usize = 0;
    assert(ws.take(0) =~= Seq::<Seq<char>>::empty());
    while i < count
        invariant
            count == ranges.len(),
            i <= count,
            chars@ == input@,
            ws == words(input@),
            pieces(chars@, ranges@) == ws,
            forall|k: int| 0 <= k < ranges.len() ==> (#[trigger] ranges[k]).0 < ranges[k].1
                <= chars.len(),
            operator_at(ws, 0) == operator_at(ws, i as int),
            notes@ == notes_of(ws.take(i as int)),
            all_wf(notes@),
        decreases count - i,
    {
        let (a, b) = ranges[i];
        let word = &chars.as_slice()[a..b];
        assert(word@ == ws[i as int]);
        if word_is_operator(word) {
            let mut text = String::from_str(input.substring_char(a, b));
            let mut j: usize = i + 1;
            assert(ws.subrange(i as int, j as int) =~= seq![ws[i as int]]);
            while j < count
                invariant
                    count == ranges.len(),
                    i < j <= count,
                    chars@ == input@,
                    pieces(chars@, ranges@) == ws,
                    forall|k: int| 0 <= k < ranges.len() ==> (#[trigger] ranges[k]).0 < ranges[k].1
                        <= chars.len(),
                    text@ == joined(ws.subrange(i as int, j as int)),
                decreases count - j,
            {
                let (c, d) = ranges[j];
                assert(input@.subrange(c as int, d as int) == ws[j as int]);
                text.append(" ");
                text.append(input.substring_char(c, d));
                proof {
                    reveal_strlit(" ");
                    let next = ws.subrange(i as int, j + 1);
                    assert(next.drop_last() =~= ws.subrange(i as int, j as int));
                    assert(next.last() == ws[j as int]);
                    assert(text@ =~= joined(next));
                }
                j += 1;
            }
            assert(ws.subrange(i as int, count as int) =~= ws.skip(i as int));
            return (notes, Some(text));
        }
        proof {
            assert(ws.take(i + 1).drop_last() =~= ws.take(i as int));
            assert(ws.take(i + 1).last() == ws[i as int]);
        }
        match parse_note_chars(word) {
            Some(note) => {
                notes.push(note);
            },
            None => {},
        }
        i += 1;
    }
    assert(ws.take(count as int) =~= ws);
    (notes, None)
}

/// Appends the notes `notes` to `out`, one blank between each two.
fn write_notes(out: &mut String, notes: &Vec<Note>)
    requires
        all_wf(notes@),
    ensures
        final(out)@ == old(out)@ + notes_text(notes@),
{
    let n = notes.len();
    let mut i: usize = 0;
    assert(notes@.take(0) =~= Seq::<Note>::empty());
    while i < n
        invariant
            n == notes.len(),
            i <= n,
            all_wf(notes@),
            out@ == old(out)@ + notes_text(notes@.take(i as int)),
        decreases n - i,
    {
        if i > 0 {
            out.append(" ");
        }
        notes[i].write_to(out);
        proof {
            let next = notes@.take(i + 1);
            assert(next.drop_last() =~= notes@.take(i as int));
            assert(next.last() == notes[i as int]);
            if i == 0 {
                assert(next[0] == notes[0]);
            }
            assert(out@ =~= old(out)@ + notes_text(next));
        }
        i += 1;
    }
    assert(notes@.take(n as int) =~= notes@);
}

/// Whether a note of `notes` deviates by more than a tenth of a cent.
fn any_microtonal(notes: &Vec<Note>) -> (b: bool)
    ensures
        b == has_microtones(notes@),
{
    let mut i: usize = 0;
    while i < notes.len()
        invariant
            i <= notes.len(),
            forall|j: int| 0 <= j < i ==> !microtonal(#[trigger] notes[j]),
        decreases notes.len() - i,
    {
        if notes[i].cents > 100 || notes[i].cents < -100 {
            assert(microtonal(notes[i as int]));
            return true;
        }
        i += 1;
    }
    false
}

/// Appends a frequency of `h` hundredths of a hertz to `out`, in hertz
/// with two decimals.
fn write_hertz(out: &mut String, h: u64)
    ensures
        final(out)@ == old(out)@ + hertz_text(h as nat),
{
    push_nat(out, h / 100);
    out.append(".");
    let ghost before = out@;
    push_nat(out, h % 100 / 10);
    push_nat(out, h % 10);
    proof {
        reveal_strlit(".");
        assert(nat_text((h % 100 / 10) as nat) =~= seq![digit_char((h % 100 / 10) as int)]);
        assert(nat_text((h % 10) as nat) =~= seq![digit_char((h % 10) as int)]);
        assert(out@ =~= old(out)@ + hertz_text(h as nat));
    }
}

/// Appends to `out` what `transform_report` says of a transformation and
/// its result.
fn write_transform(out: &mut String, t: &str, result: &Vec<Note>, hertz: &[u64])
    requires
        all_wf(result@),
    ensures
        final(out)@ == old(out)@ + transform_report(t@, result@, hertz@),
{
    out.append("Transform: ");
    out.append(t);
    out.append("\n");
    out.append("Result: ");
    write_notes(out, result);
    out.append("\n");
    let ghost plain = out@;
    assert(plain =~= old(out)@ + ("Transform: "@ + t@ + "\n"@ + "Result: "@ + notes_text(result@)
        + "\n"@));
    if any_microtonal(result) {
        out.append("\nFrequencies (Hz):\n");
        let ghost head = out@;
        let n = result.len();
        let mut i: usize = 0;
        while i < n
            invariant
                n == result.len(),
                i <= n,
                all_wf(result@),
                out@ == head + frequency_lines(result@, hertz@, i as int),
            decreases n - i,
        {
            if i < hertz.len() {
                let ghost before = out@;
                out.append("  ");
                result[i].write_to(out);
                out.append(": ");
                write_hertz(out, hertz[i]);
                out.append(" Hz\n");
                assert(out@ =~= before + frequency_line(result[i as int], hertz[i as int] as nat));
            }
            assert(out@ =~= head + frequency_lines(result@, hertz@, i + 1));
            i += 1;
        }
        assert(out@ =~= plain + ("\nFrequencies (Hz):\n"@ + frequency_lines(
            result@,
            hertz@,
            n as int,
        )));
    }
    assert(out@ =~= old(out)@ + transform_report(t@, result@, hertz@));
}

/// The report on one line of input; empty for a line without notes.
///
/// `ratio` is the interval, in thousandths of a cent, that the ratio of a
/// `*` token spans; no other line reads it. `hertz` holds the frequencies
/// of the notes that come out, in hundredths of a hertz and in their
/// order; it is read where one of them is microtonal.
pub fn analyze_line(line: &str, ratio: i64, hertz: &[u64]) -> (report: String)
    ensures
        report@ == line_report(line@, ratio as int, hertz@),
        line_notes(line@).len() == 0 ==> report@.len() == 0,
{
    let (notes, transform) = parse_transformation(line);
    let mut report = String::new();
    if notes.len() == 0 {
        return report;
    }
    report.append("\u{2550}\u{2550}\u{2550} Analysis \u{2550}\u{2550}\u{2550}\n");
    report.append("Input: ");
    write_notes(&mut report, &notes);
    report.append("\n");
    let ghost head = report@;
    assert(head =~= "\u{2550}\u{2550}\u{2550} Analysis \u{2550}\u{2550}\u{2550}\n"@ + "Input: "@ + notes_text(notes@) + "\n"@);
    let result = match transform {
        Some(t) => {
            let result = apply_transformation(notes.as_slice(), t.as_str(), ratio);
            write_transform(&mut report, t.as_str(), &result, hertz);
            result
        },
        None => notes,
    };
    assert(result@ == line_result(line@, ratio as int));
    let ghost middle = report@;
    report.append(analyze_chord(result.as_slice()).as_str());
    report.append(identify_chord_type(result.as_slice()).as_str());
    report.append("\u{2550}\u{2550}\u{2550}\u{2550}\u{2550}\u{2550}\u{2550}\u{2550}\u{2550}\u{2550}\u{2550}\u{2550}\u{2550}\u{2550}\u{2550}\n");
    assert(report@ =~= middle + chord_report(result@) + chord_line(result@) + "\u{2550}\u{2550}\u{2550}\u{2550}\u{2550}\u{2550}\u{2550}\u{2550}\u{2550}\u{2550}\u{2550}\u{2550}\u{2550}\u{2550}\u{2550}\n"@);
    assert(report@ =~= line_report(line@, ratio as int, hertz@));
    report
}

} // verus!
