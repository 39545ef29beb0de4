//! Reading and writing numbers in decimal notation.

use crate::text::{char_digit_value, char_is_digit, digit_value, find_char, find_from, is_digit};
use vstd::prelude::*;
use vstd::string::*;

verus! {

/// Largest magnitude that `parse_decimal` hands back; larger values are
/// limited to it.
pub const DECIMAL_LIMIT: i64 = 1_000_000_000_000_000_000;

/// An exponent beyond this, either way, moves any digits that a text can
/// hold out of every range that counts.
const FAR: i128 = 0x1_0000_0000_0000_0000_0000_0000;

/// `x` limited to the closed range from `lo` to `hi`.
pub open spec fn clamp_int(x: int, lo: int, hi: int) -> int {
    if x < lo {
        lo
    } else if x > hi {
        hi
    } else {
        x
    }
}

/// Every character of `s` is an ASCII decimal digit.
pub open spec fn all_digits(s: Seq<char>) -> bool {
    forall|i: int| 0 <= i < s.len() ==> is_digit(#[trigger] s[i])
}

/// The number that the digits `s` write, most significant first.
pub open spec fn digits_value(s: Seq<char>) -> int
    decreases s.len(),
{
    if s.len() == 0 {
        0
    } else {
        digits_value(s.drop_last()) * 10 + digit_value(s.last())
    }
}

/// Ten to the power `n`.
pub open spec fn pow10(n: nat) -> int
    decreases n,
{
    if n == 0 {
        1
    } else {
        10 * pow10((n - 1) as nat)
    }
}

/// Whether `s` opens with a sign: `+`, or `-` where `minus` allows it.
pub open spec fn has_sign(s: Seq<char>, minus: bool) -> bool {
    s.len() > 0 && (s[0] == '+' || (minus && s[0] == '-'))
}

/// What follows the sign of `s`, or all of `s` where it has none.
pub open spec fn unsigned_part(s: Seq<char>, minus: bool) -> Seq<char> {
    if has_sign(s, minus) {
        s.skip(1)
    } else {
        s
    }
}

/// The integer that `s` writes: an optional sign and at least one digit.
/// A `-` is a sign only where `minus` says so.
pub open spec fn integer_value(s: Seq<char>, minus: bool) -> Option<int> {
    let body = unsigned_part(s, minus);
    if body.len() > 0 && all_digits(body) {
        Some(
            if minus && s[0] == '-' {
                -digits_value(body)
            } else {
                digits_value(body)
            },
        )
    } else {
        None
    }
}

/// The integer that `s` writes, where it lies in the closed range from `lo`
/// to `hi`.
pub open spec fn integer_in(s: Seq<char>, minus: bool, lo: int, hi: int) -> Option<int> {
    match integer_value(s, minus) {
        Some(v) => if lo <= v <= hi {
            Some(v)
        } else {
            None
        },
        None => None,
    }
}

/// First position from `i` on at which `s` holds the exponent mark, `e` or
/// `E`, or the length of `s` where it holds none.
pub open spec fn exponent_at(s: Seq<char>, i: int) -> int
    decreases s.len() - i,
{
    if 0 <= i < s.len() && s[i] != 'e' && s[i] != 'E' {
        exponent_at(s, i + 1)
    } else {
        i
    }
}

/// What stands before the exponent mark of `s`.
pub open spec fn mantissa_part(s: Seq<char>) -> Seq<char> {
    s.take(exponent_at(s, 0))
}

/// The exponent that `s` writes behind its exponent mark, an integer with
/// an optional sign; zero where `s` has no mark, and nothing where what
/// stands behind the mark is no integer.
pub open spec fn exponent_value(s: Seq<char>) -> Option<int> {
    if exponent_at(s, 0) < s.len() {
        integer_value(s.skip(exponent_at(s, 0) + 1), true)
    } else {
        Some(0)
    }
}

/// The digits before the decimal point of the mantissa `m`.
pub open spec fn whole_part(m: Seq<char>) -> Seq<char> {
    m.take(find_from(m, '.', 0))
}

/// The digits behind the decimal point of the mantissa `m`; none where it
/// has no point.
pub open spec fn fraction_part(m: Seq<char>) -> Seq<char> {
    if find_from(m, '.', 0) < m.len() {
        m.skip(find_from(m, '.', 0) + 1)
    } else {
        Seq::empty()
    }
}

/// The number that the first `k` digits of `d` write, zeros standing in
/// for the digits that `d` lacks; zero where `k` is not positive.
pub open spec fn leading_value(d: Seq<char>, k: int) -> int {
    if k <= 0 {
        0
    } else if k <= d.len() {
        digits_value(d.take(k))
    } else {
        digits_value(d) * pow10((k - d.len()) as nat)
    }
}

/// Letter `i` of the word `infinity`, in lower case.
pub open spec fn infinity_letter(i: int) -> char {
    if i == 0 || i == 3 || i == 5 {
        'i'
    } else if i == 1 || i == 4 {
        'n'
    } else if i == 2 {
        'f'
    } else if i == 6 {
        't'
    } else {
        'y'
    }
}

/// Letter `i` of the word `infinity`, in upper case.
pub open spec fn infinity_capital(i: int) -> char {
    if i == 0 || i == 3 || i == 5 {
        'I'
    } else if i == 1 || i == 4 {
        'N'
    } else if i == 2 {
        'F'
    } else if i == 6 {
        'T'
    } else {
        'Y'
    }
}

/// Whether `s` spells `inf` or `infinity`, each letter in either case.
pub open spec fn is_infinity(s: Seq<char>) -> bool {
    (s.len() == 3 || s.len() == 8) && forall|i: int|
        0 <= i < s.len() ==> #[trigger] s[i] == infinity_letter(i) || s[i] == infinity_capital(i)
}

/// The magnitude of what `body`, a decimal number without its sign,
/// writes, in units of ten to the power minus `places` and rounded toward
/// zero; nothing where `body` is no number.
pub open spec fn magnitude(body: Seq<char>, places: nat) -> Option<int> {
    let whole = whole_part(mantissa_part(body));
    let fraction = fraction_part(mantissa_part(body));
    if is_infinity(body) {
        Some(DECIMAL_LIMIT as int)
    } else if all_digits(whole) && all_digits(fraction) && whole.len() + fraction.len() > 0 {
        match exponent_value(body) {
            Some(e) => Some(leading_value(whole + fraction, whole.len() + e + places)),
            None => None,
        }
    } else {
        None
    }
}

/// The decimal number that `s` writes, in units of ten to the power minus
/// `places`, rounded toward zero.
///
/// The notation is an optional sign, then digits with or without a decimal
/// point among them, at least one digit in all, and then optionally `e` or
/// `E` and an integer exponent. The number in those units is what the
/// digits write once the point is moved right by the exponent and by
/// `places`, and what then stands behind the point is dropped. Behind the
/// sign `inf` and `infinity` may stand instead, in any mix of cases: they
/// stand for `DECIMAL_LIMIT`, the largest magnitude there is. What is not
/// a number, `nan` among it, has no value.
pub open spec fn decimal_value(s: Seq<char>, places: nat) -> Option<int> {
    match magnitude(unsigned_part(s, true), places) {
        Some(v) => Some(
            if s[0] == '-' {
                -v
            } else {
                v
            },
        ),
        None => None,
    }
}

/// The digit character for `d`.
pub open spec fn digit_char(d: int) -> char {
    if d == 0 {
        '0'
    } else if d == 1 {
        '1'
    } else if d == 2 {
        '2'
    } else if d == 3 {
        '3'
    } else if d == 4 {
        '4'
    } else if d == 5 {
        '5'
    } else if d == 6 {
        '6'
    } else if d == 7 {
        '7'
    } else if d == 8 {
        '8'
    } else {
        '9'
    }
}

/// `n` in decimal notation, without leading zeros.
pub open spec fn nat_text(n: nat) -> Seq<char>
    decreases n,
{
    if n < 10 {
        seq![digit_char(n as int)]
    } else {
        nat_text(n / 10) + seq![digit_char((n % 10) as int)]
    }
}

/// `v` in decimal notation, with a `-` in front where it is negative.
pub open spec fn int_text(v: int) -> Seq<char> {
    if v < 0 {
        seq!['-'] + nat_text((-v) as nat)
    } else {
        nat_text(v as nat)
    }
}

/// Digits write a number that is not negative.
pub proof fn lemma_digits_value_bounds(s: Seq<char>)
    requires
        all_digits(s),
    ensures
        digits_value(s) >= 0,
    decreases s.len(),
{
    if s.len() > 0 {
        assert(is_digit(s[s.len() - 1]));
        lemma_digits_value_bounds(s.drop_last());
    }
}

/// One power of ten is no larger than a higher one, and none is below one.
pub proof fn lemma_pow10_grows(a: nat, b: nat)
    requires
        a <= b,
    ensures
        1 <= pow10(a) <= pow10(b),
    decreases b,
{
    if b == 0 {
    } else if a == b {
        lemma_pow10_grows((a - 1) as nat, (a - 1) as nat);
    } else {
        lemma_pow10_grows(a, (b - 1) as nat);
    }
}

/// The first powers of ten, up to one followed by nineteen zeros.
proof fn lemma_pow10_bound(n: nat)
    requires
        n <= 19,
    ensures
        1 <= pow10(n) <= 10_000_000_000_000_000_000,
        n <= 18 ==> pow10(n) <= 1_000_000_000_000_000_000,
        pow10(19) == 10_000_000_000_000_000_000,
{
    reveal_with_fuel(pow10, 21);
}

/// Once the digits are moved more than eighteen places past their end,
/// the limited value no longer depends on how far: it is zero for zeros
/// and the limit for anything else.
proof fn lemma_leading_saturates(d: Seq<char>, k: int, j: int)
    requires
        all_digits(d),
        k >= d.len() + 19,
        j >= d.len() + 19,
    ensures
        clamp_int(leading_value(d, k), 0, DECIMAL_LIMIT as int) == clamp_int(
            leading_value(d, j),
            0,
            DECIMAL_LIMIT as int,
        ),
{
    lemma_digits_value_bounds(d);
    let v = digits_value(d);
    let p = pow10((k - d.len()) as nat);
    let q = pow10((j - d.len()) as nat);
    lemma_pow10_grows(19, (k - d.len()) as nat);
    lemma_pow10_grows(19, (j - d.len()) as nat);
    lemma_pow10_bound(19);
    if v == 0 {
        assert(v * p == 0 && v * q == 0) by (nonlinear_arith)
            requires
                v == 0,
        ;
    } else {
        assert(v * p >= p && v * q >= q) by (nonlinear_arith)
            requires
                v >= 1,
                p >= 1,
                q >= 1,
        ;
    }
}

/// The number that the digits `s` write, exact up to `limit` and one more
/// than `limit` beyond it; nothing where a character of `s` is no digit.
fn read_digits(s: &[char], limit: u128) -> (r: Option<u128>)
    requires
        limit <= 0x1_0000_0000_0000_0000_0000_0000_0000,
    ensures
        match r {
            Some(v) => all_digits(s@) && v == clamp_int(digits_value(s@), 0, limit + 1),
            None => !all_digits(s@),
        },
{
    let n = s.len();
    let mut acc: u128 = 0;
    let mut i: usize = 0;
    assert(s@.take(0) =~= Seq::<char>::empty());
    while i < n
        invariant
            n == s.len(),
            i <= n,
            limit <= 0x1_0000_0000_0000_0000_0000_0000_0000,
            all_digits(s@.take(i as int)),
            acc == clamp_int(digits_value(s@.take(i as int)), 0, limit + 1),
        decreases n - i,
    {
        let c = s[i];
        if !char_is_digit(c) {
            return None;
        }
        let d = char_digit_value(c) as u128;
        proof {
            let next = s@.take(i + 1);
            assert(next.drop_last() =~= s@.take(i as int));
            assert(next.last() == c);
            lemma_digits_value_bounds(s@.take(i as int));
        }
        if acc <= limit {
            let next = acc * 10 + d;
            acc = if next > limit {
                limit + 1
            } else {
                next
            };
        }
        i += 1;
    }
    assert(s@.take(n as int) =~= s@);
    Some(acc)
}

/// The integer that `s` writes, where it lies in the closed range from `lo`
/// to `hi`; nothing where `s` writes no integer or one outside the range.
pub fn parse_integer(s: &[char], minus: bool, lo: i64, hi: i64) -> (r: Option<i64>)
    ensures
        match r {
            Some(v) => integer_in(s@, minus, lo as int, hi as int) == Some(v as int),
            None => integer_in(s@, minus, lo as int, hi as int) is None,
        },
{
    let n = s.len();
    if n == 0 {
        return None;
    }
    let negative = minus && s[0] == '-';
    let start: usize = if s[0] == '+' || negative {
        1
    } else {
        0
    };
    let body = &s[start..n];
    assert(body@ =~= unsigned_part(s@, minus));
    if start == n {
        return None;
    }
    // Beyond this the number lies outside every range of 64 bits.
    let size = match read_digits(body, 9_223_372_036_854_775_808) {
        Some(size) => size,
        None => {
            return None;
        },
    };
    proof {
        lemma_digits_value_bounds(body@);
    }
    if size > 9_223_372_036_854_775_808 {
        return None;
    }
    let v: i128 = if negative {
        -(size as i128)
    } else {
        size as i128
    };
    if lo as i128 <= v && v <= hi as i128 {
        Some(v as i64)
    } else {
        None
    }
}

/// Ten to the power `n`.
fn power_of_ten(n: u32) -> (p: u128)
    requires
        n <= 18,
    ensures
        p == pow10(n as nat),
        1 <= p <= 1_000_000_000_000_000_000,
{
    let mut p: u128 = 1;
    let mut k: u32 = 0;
    while k < n
        invariant
            k <= n <= 18,
            p == pow10(k as nat),
        decreases n - k,
    {
        proof {
            lemma_pow10_bound(k as nat);
            assert(pow10((k + 1) as nat) == 10 * pow10(k as nat));
        }
        p = p * 10;
        k += 1;
    }
    proof {
        lemma_pow10_bound(n as nat);
    }
    p
}

/// The number that the first `k` digits of `d` write, zeros standing in
/// for the digits that `d` lacks, limited to `DECIMAL_LIMIT`; nothing where
/// a character of `d` is no digit.
fn leading(d: &[char], k: i128) -> (r: Option<u128>)
    ensures
        match r {
            Some(v) => all_digits(d@) && v == clamp_int(
                leading_value(d@, k as int),
                0,
                DECIMAL_LIMIT as int,
            ),
            None => !all_digits(d@),
        },
{
    let limit: u128 = 1_000_000_000_000_000_000;
    let n = d.len();
    let all = match read_digits(d, limit) {
        Some(all) => all,
        None => {
            return None;
        },
    };
    if k <= 0 {
        return Some(0);
    }
    if k <= n as i128 {
        let head = &d[0..k as usize];
        assert(head@ =~= d@.take(k as int));
        return match read_digits(head, limit) {
            Some(v) => Some(
                if v > limit {
                    limit
                } else {
                    v
                },
            ),
            None => None,
        };
    }
    let pad: i128 = k - n as i128;
    proof {
        lemma_digits_value_bounds(d@);
        lemma_pow10_grows(0, pad as nat);
        let v = digits_value(d@);
        let p = pow10(pad as nat);
        if v == 0 {
            assert(v * p == 0) by (nonlinear_arith)
                requires
                    v == 0,
            ;
        } else {
            assert(v * p >= v && v * p >= p) by (nonlinear_arith)
                requires
                    v >= 1,
                    p >= 1,
            ;
        }
        if pad > 18 {
            lemma_pow10_grows(19, pad as nat);
            lemma_pow10_bound(19);
        }
    }
    if all == 0 {
        Some(0)
    } else if all > limit || pad > 18 {
        Some(limit)
    } else {
        let p = power_of_ten(pad as u32);
        assert(all * p <= 1_000_000_000_000_000_000 * 1_000_000_000_000_000_000)
            by (nonlinear_arith)
            requires
                all <= 1_000_000_000_000_000_000,
                p <= 1_000_000_000_000_000_000,
        ;
        let total = all * p;
        Some(
            if total > limit {
                limit
            } else {
                total
            },
        )
    }
}

/// First position at which `s` holds the exponent mark, or its length.
fn find_exponent(s: &[char]) -> (p: usize)
    ensures
        p == exponent_at(s@, 0),
        p <= s.len(),
{
    let n = s.len();
    let mut p: usize = 0;
    while p < n && s[p] != 'e' && s[p] != 'E'
        invariant
            n == s.len(),
            p <= n,
            exponent_at(s@, 0) == exponent_at(s@, p as int),
        decreases n - p,
    {
        p += 1;
    }
    p
}

/// Appends the characters `s` to `out`.
fn push_all(out: &mut Vec<char>, s: &[char])
    ensures
        final(out)@ == old(out)@ + s@,
{
    let n = s.len();
    let mut i: usize = 0;
    assert(s@.take(0) =~= Seq::<char>::empty());
    assert(out@ =~= old(out)@ + s@.take(0));
    while i < n
        invariant
            n == s.len(),
            i <= n,
            out@ == old(out)@ + s@.take(i as int),
        decreases n - i,
    {
        out.push(s[i]);
        assert(s@.take(i + 1) =~= s@.take(i as int).push(s@[i as int]));
        assert(out@ =~= old(out)@ + s@.take(i + 1));
        i += 1;
    }
    assert(s@.take(n as int) =~= s@);
}

/// The exponent that `text` writes, limited to one beyond `FAR` either
/// way; nothing where `text` is no integer.
fn read_exponent(text: &[char]) -> (r: Option<i128>)
    ensures
        match r {
            Some(x) => integer_value(text@, true) is Some && x == clamp_int(
                integer_value(text@, true)->0,
                -FAR - 1,
                FAR + 1,
            ),
            None => integer_value(text@, true) is None,
        },
{
    let n = text.len();
    let start: usize = if n > 0 && (text[0] == '+' || text[0] == '-') {
        1
    } else {
        0
    };
    let digits = &text[start..n];
    assert(digits@ =~= unsigned_part(text@, true));
    if start == n {
        return None;
    }
    match read_digits(digits, FAR as u128) {
        Some(size) => {
            proof {
                lemma_digits_value_bounds(digits@);
            }
            Some(
                if text[0] == '-' {
                    -(size as i128)
                } else {
                    size as i128
                },
            )
        },
        None => None,
    }
}

/// The digits of the mantissa `m`, the point left out, and how many of
/// them stand before the point.
fn mantissa_digits(m: &[char]) -> (r: (Vec<char>, usize))
    ensures
        r.0@ == whole_part(m@) + fraction_part(m@),
        r.1 == whole_part(m@).len(),
{
    let point = find_char(m, '.', 0);
    let whole = &m[0..point];
    assert(whole@ =~= whole_part(m@));
    let mut digits: Vec<char> = Vec::new();
    push_all(&mut digits, whole);
    if point < m.len() {
        let fraction = &m[point + 1..m.len()];
        assert(fraction@ =~= fraction_part(m@));
        push_all(&mut digits, fraction);
    }
    assert(digits@ =~= whole_part(m@) + fraction_part(m@));
    (digits, point)
}

/// Two runs of characters are digits throughout exactly where both
/// together are.
proof fn lemma_all_digits_joined(w: Seq<char>, f: Seq<char>)
    ensures
        all_digits(w + f) <==> all_digits(w) && all_digits(f),
{
    if all_digits(w + f) {
        assert forall|i: int| 0 <= i < w.len() implies is_digit(#[trigger] w[i]) by {
            assert(w[i] == (w + f)[i]);
        }
        assert forall|i: int| 0 <= i < f.len() implies is_digit(#[trigger] f[i]) by {
            assert(f[i] == (w + f)[w.len() + i]);
        }
    }
}

/// Whether `s` spells `inf` or `infinity`, each letter in either case.
fn spells_infinity(s: &[char]) -> (b: bool)
    ensures
        b == is_infinity(s@),
{
    let n = s.len();
    if n != 3 && n != 8 {
        return false;
    }
    let mut i: usize = 0;
    while i < n
        invariant
            n == s.len(),
            n == 3 || n == 8,
            i <= n,
            forall|j: int|
                0 <= j < i ==> #[trigger] s@[j] == infinity_letter(j) || s@[j]
                    == infinity_capital(j),
        decreases n - i,
    {
        let (small, capital) = if i == 0 || i == 3 || i == 5 {
            ('i', 'I')
        } else if i == 1 || i == 4 {
            ('n', 'N')
        } else if i == 2 {
            ('f', 'F')
        } else if i == 6 {
            ('t', 'T')
        } else {
            ('y', 'Y')
        };
        if s[i] != small && s[i] != capital {
            return false;
        }
        i += 1;
    }
    true
}

/// The decimal number that `s` writes, in units of ten to the power minus
/// `places` and limited to `DECIMAL_LIMIT` either way; nothing where `s`
/// writes no decimal number.
pub fn parse_decimal(s: &[char], places: u32) -> (r: Option<i64>)
    requires
        places <= 9,
    ensures
        match r {
            Some(v) => decimal_value(s@, places as nat) is Some && v == clamp_int(
                decimal_value(s@, places as nat)->0,
                -DECIMAL_LIMIT,
                DECIMAL_LIMIT as int,
            ),
            None => decimal_value(s@, places as nat) is None,
        },
{
    let n = s.len();
    let negative = n > 0 && s[0] == '-';
    let start: usize = if n > 0 && (s[0] == '+' || s[0] == '-') {
        1
    } else {
        0
    };
    let body = &s[start..n];
    assert(body@ =~= unsigned_part(s@, true));
    if spells_infinity(body) {
        return Some(
            if negative {
                -DECIMAL_LIMIT
            } else {
                DECIMAL_LIMIT
            },
        );
    }
    let mark = find_exponent(body);
    let mantissa = &body[0..mark];
    assert(mantissa@ =~= mantissa_part(body@));
    let exponent: i128 = if mark < body.len() {
        let text = &body[mark + 1..body.len()];
        assert(text@ =~= body@.skip(mark + 1));
        match read_exponent(text) {
            Some(x) => x,
            None => {
                return None;
            },
        }
    } else {
        0
    };
    let ghost e = exponent_value(body@)->0;
    let (digits, point) = mantissa_digits(mantissa);
    let ghost w = whole_part(mantissa@);
    let ghost f = fraction_part(mantissa@);
    proof {
        lemma_all_digits_joined(w, f);
    }
    if digits.len() == 0 {
        return None;
    }
    // Far enough either way, the exponent alone decides.
    let k: i128 = point as i128 + exponent + places as i128;
    let size = match leading(digits.as_slice(), k) {
        Some(size) => size,
        None => {
            return None;
        },
    };
    proof {
        let true_k = w.len() + e + places;
        if e > FAR {
            lemma_leading_saturates(w + f, k as int, true_k);
        }
        lemma_leading_bounds(w + f, true_k);
    }
    if negative {
        Some(-(size as i64))
    } else {
        Some(size as i64)
    }
}

/// The leading digits write a number that is not negative.
proof fn lemma_leading_bounds(d: Seq<char>, k: int)
    requires
        all_digits(d),
    ensures
        leading_value(d, k) >= 0,
{
    lemma_digits_value_bounds(d);
    if 0 < k <= d.len() {
        assert forall|i: int| 0 <= i < d.take(k).len() implies is_digit(
            #[trigger] d.take(k)[i],
        ) by {
            assert(d.take(k)[i] == d[i]);
        }
        lemma_digits_value_bounds(d.take(k));
    } else if k > d.len() {
        lemma_pow10_grows(0, (k - d.len()) as nat);
        let v = digits_value(d);
        let p = pow10((k - d.len()) as nat);
        assert(v * p >= 0) by (nonlinear_arith)
            requires
                v >= 0,
                p >= 1,
        ;
    }
}

/// The one-character text of the digit `d`.
fn digit_text(d: u8) -> (t: &'static str)
    requires
        d <= 9,
    ensures
        t@ == seq![digit_char(d as int)],
{
    proof {
        reveal_strlit("0");
        reveal_strlit("1");
        reveal_strlit("2");
        reveal_strlit("3");
        reveal_strlit("4");
        reveal_strlit("5");
        reveal_strlit("6");
        reveal_strlit("7");
        reveal_strlit("8");
        reveal_strlit("9");
    }
    let t = match d {
        0 => "0",
        1 => "1",
        2 => "2",
        3 => "3",
        4 => "4",
        5 => "5",
        6 => "6",
        7 => "7",
        8 => "8",
        _ => "9",
    };
    assert(t@ =~= seq![digit_char(d as int)]);
    t
}

/// Appends `n` in decimal notation to `out`.
pub fn push_nat(out: &mut String, n: u64)
    ensures
        final(out)@ == old(out)@ + nat_text(n as nat),
    decreases n,
{
    if n >= 10 {
        push_nat(out, n / 10);
    }
    out.append(digit_text((n % 10) as u8));
    assert(out@ =~= old(out)@ + nat_text(n as nat));
}

/// Appends `v` in decimal notation to `out`, with a `-` in front where it
/// is negative.
pub fn push_int(out: &mut String, v: i64)
    ensures
        final(out)@ == old(out)@ + int_text(v as int),
{
    if v < 0 {
        out.append("-");
        proof {
            reveal_strlit("-");
        }
        push_nat(out, (-(v as i128)) as u64);
        assert(out@ =~= old(out)@ + int_text(v as int));
    } else {
        push_nat(out, v as u64);
    }
}

} // verus!
