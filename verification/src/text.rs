//! Characters, words and numbers: the lexical layer under the parsers and
//! the report writer.

use vstd::prelude::*;
use vstd::string::*;

verus! {

/// An ASCII decimal digit.
pub open spec fn is_digit(c: char) -> bool {
    '0' <= c && c <= '9'
}

/// The number that an ASCII decimal digit stands for.
pub open spec fn digit_value(c: char) -> int {
    c as u32 as int - '0' as u32 as int
}

/// A character with the Unicode property `White_Space`.
pub open spec fn is_space(c: char) -> bool {
    ||| ('\u{0009}' <= c && c <= '\u{000D}')
    ||| c == ' '
    ||| c == '\u{0085}'
    ||| c == '\u{00A0}'
    ||| c == '\u{1680}'
    ||| ('\u{2000}' <= c && c <= '\u{200A}')
    ||| c == '\u{2028}'
    ||| c == '\u{2029}'
    ||| c == '\u{202F}'
    ||| c == '\u{205F}'
    ||| c == '\u{3000}'
}

/// Whether `c` is an ASCII decimal digit.
pub fn char_is_digit(c: char) -> (b: bool)
    ensures
        b == is_digit(c),
{
    '0' <= c && c <= '9'
}

/// The number that the ASCII decimal digit `c` stands for.
pub fn char_digit_value(c: char) -> (d: u8)
    requires
        is_digit(c),
    ensures
        d == digit_value(c),
        d <= 9,
{
    (c as u32 - '0' as u32) as u8
}

/// Whether `c` has the Unicode property `White_Space`.
pub fn char_is_space(c: char) -> (b: bool)
    ensures
        b == is_space(c),
{
    ('\u{0009}' <= c && c <= '\u{000D}') || c == ' ' || c == '\u{0085}' || c == '\u{00A0}' || c
        == '\u{1680}' || ('\u{2000}' <= c && c <= '\u{200A}') || c == '\u{2028}' || c
        == '\u{2029}' || c == '\u{202F}' || c == '\u{205F}' || c == '\u{3000}'
}

/// The characters of `s`, in order.
pub fn chars_of(s: &str) -> (v: Vec<char>)
    ensures
        v@ == s@,
{
    let mut v: Vec<char> = Vec::new();
    for c in it: s.chars()
        invariant
            v@ == s@.take(it.index() as int),
            it.seq() == s@,
    {
        v.push(c);
    }
    v
}

/// Length of the run of characters that are not white space and that starts
/// at position `i` of `s`.
pub open spec fn word_len(s: Seq<char>, i: int) -> nat
    decreases s.len() - i,
{
    if 0 <= i < s.len() && !is_space(s[i]) {
        1 + word_len(s, i + 1)
    } else {
        0
    }
}

/// The words of `s` from position `i` on: the maximal runs of characters
/// that are not white space, in order.
pub open spec fn words_from(s: Seq<char>, i: int) -> Seq<Seq<char>>
    decreases s.len() - i,
{
    if i < 0 || i >= s.len() {
        Seq::empty()
    } else if is_space(s[i]) {
        words_from(s, i + 1)
    } else {
        let end = i + 1 + word_len(s, i + 1);
        proof {
            lemma_word_len_bound(s, i + 1);
        }
        seq![s.subrange(i, end)] + words_from(s, end)
    }
}

/// The words of `s`: what splitting at white space gives.
pub open spec fn words(s: Seq<char>) -> Seq<Seq<char>> {
    words_from(s, 0)
}

/// The first word of `s`, or nothing where `s` has no word.
pub open spec fn first_word(s: Seq<char>) -> Seq<char> {
    if words(s).len() > 0 {
        words(s)[0]
    } else {
        Seq::empty()
    }
}

/// The words `ws` with one blank between each two.
pub open spec fn joined(ws: Seq<Seq<char>>) -> Seq<char>
    decreases ws.len(),
{
    if ws.len() == 0 {
        Seq::empty()
    } else if ws.len() == 1 {
        ws[0]
    } else {
        joined(ws.drop_last()) + seq![' '] + ws.last()
    }
}

/// The pieces of `s` that the ranges `rs` cut out, in order.
pub open spec fn pieces(s: Seq<char>, rs: Seq<(usize, usize)>) -> Seq<Seq<char>> {
    Seq::new(rs.len(), |k: int| s.subrange(rs[k].0 as int, rs[k].1 as int))
}

/// A run never reaches past the end of the text.
pub proof fn lemma_word_len_bound(s: Seq<char>, i: int)
    requires
        0 <= i <= s.len(),
    ensures
        i + word_len(s, i) <= s.len(),
        forall|j: int| i <= j < i + word_len(s, i) ==> !is_space(#[trigger] s[j]),
        i + word_len(s, i) < s.len() ==> is_space(s[i + word_len(s, i)]),
    decreases s.len() - i,
{
    if i < s.len() && !is_space(s[i]) {
        lemma_word_len_bound(s, i + 1);
    }
}

/// Where the words of `s` begin and end: one range of positions for each.
pub fn word_ranges(s: &[char]) -> (rs: Vec<(usize, usize)>)
    ensures
        pieces(s@, rs@) == words(s@),
        forall|k: int| 0 <= k < rs.len() ==> (#[trigger] rs[k]).0 < rs[k].1 <= s.len(),
{
    let n = s.len();
    let mut rs: Vec<(usize, usize)> = Vec::new();
    let mut i: usize = 0;
    while i < n
        invariant
            n == s.len(),
            i <= n,
            words(s@) == pieces(s@, rs@) + words_from(s@, i as int),
            forall|k: int| 0 <= k < rs.len() ==> (#[trigger] rs[k]).0 < rs[k].1 <= s.len(),
        decreases n - i,
    {
        if char_is_space(s[i]) {
            i += 1;
        } else {
            let start = i;
            let ghost before = rs@;
            while i < n && !char_is_space(s[i])
                invariant
                    n == s.len(),
                    start <= i <= n,
                    start < n,
                    !is_space(s@[start as int]),
                    start + word_len(s@, start as int) == i + word_len(s@, i as int),
                decreases n - i,
            {
                i += 1;
            }
            rs.push((start, i));
            proof {
                assert(word_len(s@, i as int) == 0);
                assert(pieces(s@, rs@) =~= pieces(s@, before) + seq![
                    s@.subrange(start as int, i as int),
                ]);
            }
        }
    }
    proof {
        assert(words_from(s@, i as int) =~= Seq::<Seq<char>>::empty());
    }
    rs
}

/// `s` without the white space at its front.
pub open spec fn trimmed_start(s: Seq<char>) -> Seq<char>
    decreases s.len(),
{
    if s.len() > 0 && is_space(s[0]) {
        trimmed_start(s.skip(1))
    } else {
        s
    }
}

/// `s` without the white space at its end.
pub open spec fn trimmed_end(s: Seq<char>) -> Seq<char>
    decreases s.len(),
{
    if s.len() > 0 && is_space(s.last()) {
        trimmed_end(s.drop_last())
    } else {
        s
    }
}

/// `s` without the white space at either end.
pub open spec fn trimmed(s: Seq<char>) -> Seq<char> {
    trimmed_end(trimmed_start(s))
}

/// First position from `i` on at which `s` holds `c`, or the length of `s`
/// where it holds none.
pub open spec fn find_from(s: Seq<char>, c: char, i: int) -> int
    decreases s.len() - i,
{
    if 0 <= i < s.len() && s[i] != c {
        find_from(s, c, i + 1)
    } else {
        i
    }
}

/// Last position at which `s` holds `c`, or -1 where it holds none.
pub open spec fn find_last(s: Seq<char>, c: char) -> int
    decreases s.len(),
{
    if s.len() == 0 {
        -1
    } else if s.last() == c {
        s.len() - 1
    } else {
        find_last(s.drop_last(), c)
    }
}

/// The range of positions that trimming leaves of `s`.
pub fn trim_range(s: &[char]) -> (r: (usize, usize))
    ensures
        r.0 <= r.1 <= s.len(),
        s@.subrange(r.0 as int, r.1 as int) == trimmed(s@),
{
    let n = s.len();
    let mut a: usize = 0;
    assert(s@.skip(0) =~= s@);
    while a < n && char_is_space(s[a])
        invariant
            n == s.len(),
            a <= n,
            trimmed_start(s@) == trimmed_start(s@.skip(a as int)),
        decreases n - a,
    {
        assert(s@.skip(a as int).skip(1) =~= s@.skip(a + 1));
        a += 1;
    }
    let ghost front = s@.skip(a as int);
    assert(trimmed_start(s@) == front);
    let mut b: usize = n;
    assert(front.take(n - a) =~= front);
    while b > a && char_is_space(s[b - 1])
        invariant
            n == s.len(),
            a <= b <= n,
            front == s@.skip(a as int),
            trimmed_end(front) == trimmed_end(front.take(b - a)),
        decreases b,
    {
        assert(front.take(b - a).drop_last() =~= front.take(b - a - 1));
        assert(front.take(b - a).last() == s@[b - 1]);
        b -= 1;
    }
    proof {
        let kept = front.take(b - a);
        if b > a {
            assert(kept.last() == s@[b - 1]);
        }
        assert(trimmed_end(kept) == kept);
        assert(kept =~= s@.subrange(a as int, b as int));
    }
    (a, b)
}

/// The length that trimming the end leaves of `s`.
pub fn trim_end_len(s: &[char]) -> (e: usize)
    ensures
        e <= s.len(),
        s@.take(e as int) == trimmed_end(s@),
{
    let mut e: usize = s.len();
    assert(s@.take(e as int) =~= s@);
    while e > 0 && char_is_space(s[e - 1])
        invariant
            e <= s.len(),
            trimmed_end(s@) == trimmed_end(s@.take(e as int)),
        decreases e,
    {
        assert(s@.take(e as int).drop_last() =~= s@.take(e - 1));
        e -= 1;
    }
    proof {
        if e > 0 {
            assert(s@.take(e as int).last() == s@[e - 1]);
        }
    }
    e
}

/// First position from `i` on at which `s` holds `c`, or the length of `s`.
pub fn find_char(s: &[char], c: char, i: usize) -> (p: usize)
    requires
        i <= s.len(),
    ensures
        p == find_from(s@, c, i as int),
        i <= p <= s.len(),
{
    let n = s.len();
    let mut p: usize = i;
    while p < n && s[p] != c
        invariant
            n == s.len(),
            i <= p <= n,
            find_from(s@, c, i as int) == find_from(s@, c, p as int),
        decreases n - p,
    {
        p += 1;
    }
    p
}

/// Last position at which `s` holds `c`.
pub fn find_last_char(s: &[char], c: char) -> (p: Option<usize>)
    ensures
        match p {
            Some(i) => i == find_last(s@, c) && i < s.len(),
            None => find_last(s@, c) == -1,
        },
{
    let mut e: usize = s.len();
    assert(s@.take(e as int) =~= s@);
    while e > 0 && s[e - 1] != c
        invariant
            e <= s.len(),
            find_last(s@, c) == find_last(s@.take(e as int), c),
        decreases e,
    {
        assert(s@.take(e as int).drop_last() =~= s@.take(e - 1));
        e -= 1;
    }
    if e == 0 {
        assert(s@.take(0) =~= Seq::<char>::empty());
        None
    } else {
        assert(s@.take(e as int).last() == s@[e - 1]);
        Some(e - 1)
    }
}

/// Whether the characters `s` spell the text `t`.
pub fn spells(s: &[char], t: &str) -> (b: bool)
    ensures
        b == (s@ == t@),
{
    let want = chars_of(t);
    if want.len() != s.len() {
        return false;
    }
    let mut i: usize = 0;
    while i < s.len()
        invariant
            i <= s.len(),
            want.len() == s.len(),
            want@ == t@,
            s@.take(i as int) == want@.take(i as int),
        decreases s.len() - i,
    {
        if s[i] != want[i] {
            return false;
        }
        assert(s@.take(i + 1) =~= s@.take(i as int).push(s@[i as int]));
        assert(want@.take(i + 1) =~= want@.take(i as int).push(want@[i as int]));
        i += 1;
    }
    assert(s@.take(s.len() as int) =~= s@);
    assert(want@.take(s.len() as int) =~= want@);
    true
}

} // verus!
