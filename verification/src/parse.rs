//! The note parser: from a token such as `C#4+25` to a note.
//!
//! A token is a note name, an optional octave and an optional deviation in
//! cents. Letters are matched without regard to ASCII case, and digits are
//! the ASCII digits.

use crate::number::{clamp_int, decimal_value, integer_in, parse_decimal, parse_integer};
use crate::pitch::{Note, HALF_STEP};
use crate::text::{
    char_is_digit, chars_of, find_char, find_from, find_last, find_last_char, is_digit,
    trim_range, trimmed,
};
use vstd::prelude::*;

verus! {

/// Number of ASCII digits at the end of `s`.
pub open spec fn digit_run(s: Seq<char>) -> nat
    decreases s.len(),
{
    if s.len() > 0 && is_digit(s.last()) {
        1 + digit_run(s.drop_last())
    } else {
        0
    }
}

/// Every character of `s` is an ASCII digit or a decimal point.
pub open spec fn digits_or_points(s: Seq<char>) -> bool {
    forall|i: int| 0 <= i < s.len() ==> is_digit(#[trigger] s[i]) || s[i] == '.'
}

/// Where the deviation of the token `t` begins, or the length of `t` where
/// it has none.
///
/// The first `+` begins one. Failing that, the last `-` begins one where a
/// digit stands right before it and nothing but digits and points follows:
/// so the `-` of `C-1` belongs to the octave and that of `C4-14` does not.
pub open spec fn cents_at(t: Seq<char>) -> int {
    let plus = find_from(t, '+', 0);
    let minus = find_last(t, '-');
    if plus < t.len() {
        plus
    } else if minus >= 1 && is_digit(t[minus - 1]) && digits_or_points(t.skip(minus + 1)) {
        minus
    } else {
        t.len() as int
    }
}

/// The deviation that the token `t` writes, in thousandths of a cent;
/// nothing where it has none or where what stands there is no number.
pub open spec fn cents_of(t: Seq<char>) -> Option<int> {
    let p = cents_at(t);
    if p >= t.len() {
        None
    } else if t[p] == '+' {
        decimal_value(t.skip(p + 1), 3)
    } else {
        decimal_value(t.skip(p), 3)
    }
}

/// Length of the note name in `base`, a token without its deviation: what
/// stands before the digits at its end, and before a `-` right in front of
/// them.
pub open spec fn name_len(base: Seq<char>) -> int {
    let k = base.len() - digit_run(base);
    if k < base.len() && k > 0 && base[k - 1] == '-' {
        k - 1
    } else {
        k
    }
}

/// The octave that `base` writes: 4 where it ends in no digit, else the
/// signed number behind the name where it fits the octave field.
pub open spec fn octave_of(base: Seq<char>) -> Option<int> {
    if digit_run(base) == 0 {
        Some(4)
    } else {
        integer_in(base.skip(name_len(base)), true, -128, 127)
    }
}

/// The pitch class of a natural note letter, in either case.
pub open spec fn letter_class(c: char) -> Option<int> {
    if c == 'C' || c == 'c' {
        Some(0)
    } else if c == 'D' || c == 'd' {
        Some(2)
    } else if c == 'E' || c == 'e' {
        Some(4)
    } else if c == 'F' || c == 'f' {
        Some(5)
    } else if c == 'G' || c == 'g' {
        Some(7)
    } else if c == 'A' || c == 'a' {
        Some(9)
    } else if c == 'B' || c == 'b' {
        Some(11)
    } else {
        None
    }
}

/// A sharp sign: `#`, or the letter S in either case.
pub open spec fn is_sharp(c: char) -> bool {
    c == '#' || c == 'S' || c == 's'
}

/// The pitch class that the note name `name` stands for: one of the seven
/// letters, or one of C, D, F, G, A with a sharp sign.
pub open spec fn pitch_class_of(name: Seq<char>) -> Option<int> {
    if name.len() == 1 {
        letter_class(name[0])
    } else if name.len() == 2 && is_sharp(name[1]) {
        match letter_class(name[0]) {
            Some(pc) => if pc == 4 || pc == 11 {
                None
            } else {
                Some(pc + 1)
            },
            None => None,
        }
    } else {
        None
    }
}

/// The note that the text `s` writes, white space around it apart; nothing
/// where the name is none of the twelve or the octave does not fit. A
/// deviation is limited to fifty cents either way, and one that is no
/// number counts as none.
pub open spec fn note_of_text(s: Seq<char>) -> Option<Note> {
    let t = trimmed(s);
    let base = t.take(cents_at(t));
    match (pitch_class_of(base.take(name_len(base))), octave_of(base)) {
        (Some(pc), Some(o)) => Some(
            Note {
                pitch_class: pc as u8,
                octave: o as i8,
                cents: match cents_of(t) {
                    Some(c) => clamp_int(c, -HALF_STEP, HALF_STEP as int) as i32,
                    None => 0,
                },
            },
        ),
        _ => None,
    }
}

/// Whether every character of `s` is an ASCII digit or a decimal point.
fn only_digits_or_points(s: &[char]) -> (b: bool)
    ensures
        b == digits_or_points(s@),
{
    let mut i: usize = 0;
    while i < s.len()
        invariant
            i <= s.len(),
            forall|j: int| 0 <= j < i ==> is_digit(#[trigger] s@[j]) || s@[j] == '.',
        decreases s.len() - i,
    {
        if !char_is_digit(s[i]) && s[i] != '.' {
            return false;
        }
        i += 1;
    }
    true
}

/// Where the digits at the end of `s` begin.
fn digits_start(s: &[char]) -> (k: usize)
    ensures
        k <= s.len(),
        k == s.len() - digit_run(s@),
{
    let mut k: usize = s.len();
    assert(s@.take(k as int) =~= s@);
    while k > 0 && char_is_digit(s[k - 1])
        invariant
            k <= s.len(),
            s.len() - digit_run(s@) == k - digit_run(s@.take(k as int)),
        decreases k,
    {
        assert(s@.take(k as int).drop_last() =~= s@.take(k - 1));
        k -= 1;
    }
    proof {
        if k > 0 {
            assert(s@.take(k as int).last() == s@[k - 1]);
        }
    }
    k
}

/// The pitch class of a natural note letter, in either case.
fn class_of_letter(c: char) -> (r: Option<u8>)
    ensures
        match r {
            Some(pc) => letter_class(c) == Some(pc as int) && pc < 12,
            None => letter_class(c) is None,
        },
{
    if c == 'C' || c == 'c' {
        Some(0)
    } else if c == 'D' || c == 'd' {
        Some(2)
    } else if c == 'E' || c == 'e' {
        Some(4)
    } else if c == 'F' || c == 'f' {
        Some(5)
    } else if c == 'G' || c == 'g' {
        Some(7)
    } else if c == 'A' || c == 'a' {
        Some(9)
    } else if c == 'B' || c == 'b' {
        Some(11)
    } else {
        None
    }
}

/// The pitch class that the note name `name` stands for.
fn class_of_name(name: &[char]) -> (r: Option<u8>)
    ensures
        match r {
            Some(pc) => pitch_class_of(name@) == Some(pc as int) && pc < 12,
            None => pitch_class_of(name@) is None,
        },
{
    if name.len() == 1 {
        class_of_letter(name[0])
    } else if name.len() == 2 && (name[1] == '#' || name[1] == 'S' || name[1] == 's') {
        match class_of_letter(name[0]) {
            Some(pc) => if pc == 4 || pc == 11 {
                None
            } else {
                Some(pc + 1)
            },
            None => None,
        }
    } else {
        None
    }
}

/// Where the deviation of the token `t` begins.
fn cents_start(t: &[char]) -> (p: usize)
    ensures
        p == cents_at(t@),
        p <= t.len(),
{
    let n = t.len();
    let plus = find_char(t, '+', 0);
    if plus < n {
        return plus;
    }
    match find_last_char(t, '-') {
        Some(m) => {
            if m >= 1 && char_is_digit(t[m - 1]) {
                let tail = &t[m + 1..n];
                assert(tail@ =~= t@.skip(m + 1));
                if only_digits_or_points(tail) {
                    return m;
                }
            }
            n
        },
        None => n,
    }
}

/// The note that the characters `s` write.
pub fn parse_note_chars(s: &[char]) -> (r: Option<Note>)
    ensures
        r == note_of_text(s@),
        r matches Some(note) ==> note.wf(),
{
    let (a, b) = trim_range(s);
    let t = &s[a..b];
    assert(t@ == trimmed(s@));
    let n = t.len();
    let split = cents_start(t);
    let cents: Option<i64> = if split >= n {
        None
    } else if t[split] == '+' {
        let tail = &t[split + 1..n];
        assert(tail@ =~= t@.skip(split + 1));
        parse_decimal(tail, 3)
    } else {
        let tail = &t[split..n];
        assert(tail@ =~= t@.skip(split as int));
        parse_decimal(tail, 3)
    };
    let base = &t[0..split];
    assert(base@ =~= t@.take(split as int));
    let k = digits_start(base);
    let name_end: usize = if k < split && k > 0 && base[k - 1] == '-' {
        k - 1
    } else {
        k
    };
    assert(name_end == name_len(base@));
    let name = &base[0..name_end];
    assert(name@ =~= base@.take(name_end as int));
    let pitch_class = match class_of_name(name) {
        Some(pc) => pc,
        None => {
            return None;
        },
    };
    let octave: i8 = if k == split {
        4
    } else {
        let digits = &base[name_end..split];
        assert(digits@ =~= base@.skip(name_end as int));
        match parse_integer(digits, true, -128, 127) {
            Some(o) => o as i8,
            None => {
                return None;
            },
        }
    };
    let deviation: i32 = match cents {
        Some(c) => if c < -(HALF_STEP as i64) {
            -HALF_STEP
        } else if c > HALF_STEP as i64 {
            HALF_STEP
        } else {
            c as i32
        },
        None => 0,
    };
    Some(Note { pitch_class, octave, cents: deviation })
}

/// The note that the token `s` writes, such as `C4`, `c#4`, `A-1` or
/// `E5-14`; nothing where `s` is no note.
pub fn parse_note(s: &str) -> (r: Option<Note>)
    ensures
        r == note_of_text(s@),
        r matches Some(note) ==> note.wf(),
{
    let chars = chars_of(s);
    parse_note_chars(chars.as_slice())
}

} // verus!
