//! Decimal literals and the weight they stand for, in thousandths.
//!
//! A weight is written as a decimal number: an optional sign, digits with an
//! optional fraction, an optional exponent; or one of the words `inf`,
//! `infinity` and `nan`, in any case. Its value is limited to the range from
//! zero to one and counted in whole thousandths, rounding down. All of it is
//! exact integer arithmetic: `0.251` stands for 251 thousandths. A reading
//! in single-precision floating point can differ from it by one thousandth,
//! where the product falls just below a whole number.

use vstd::arithmetic::div_mod::lemma_div_denominator;
use vstd::arithmetic::mul::lemma_mul_inequality;
use vstd::prelude::*;

verus! {

/// The largest weight, one, in thousandths.
pub const FULL: u16 = 1000;

/// A decimal literal, as the grammar reads it.
pub enum Literal {
    /// The word `nan`.
    NotANumber,
    /// The word `inf` or `infinity`.
    Infinite { negative: bool },
    /// The number `digits * 10^exponent`, with its sign.
    Finite { negative: bool, digits: Seq<char>, exponent: int },
}

pub open spec fn is_digit(c: char) -> bool {
    '0' <= c <= '9'
}

/// The value of the digit `c`.
pub open spec fn digit_value(c: char) -> nat {
    (c as int - '0' as int) as nat
}

pub open spec fn is_sign(c: char) -> bool {
    c == '+' || c == '-'
}

/// Whether `c` is the letter written `lower` or `upper`.
pub open spec fn is_letter(c: char, lower: char, upper: char) -> bool {
    c == lower || c == upper
}

/// How many digits `s` starts with.
pub open spec fn digits_len(s: Seq<char>) -> nat
    decreases s.len(),
{
    if s.len() > 0 && is_digit(s.first()) {
        1 + digits_len(s.drop_first())
    } else {
        0
    }
}

/// The number that the digits of `s` write in base ten.
pub open spec fn number(s: Seq<char>) -> nat
    decreases s.len(),
{
    if s.len() == 0 {
        0
    } else {
        10 * number(s.drop_last()) + digit_value(s.last())
    }
}

pub open spec fn pow10(n: nat) -> nat
    decreases n,
{
    if n == 0 {
        1
    } else {
        10 * pow10((n - 1) as nat)
    }
}

/// `m * 10^e`, rounded down to a whole number.
pub open spec fn scale(m: nat, e: int) -> nat {
    if e >= 0 {
        m * pow10(e as nat)
    } else {
        m / pow10((-e) as nat)
    }
}

/// `s` without a leading sign.
pub open spec fn unsigned(s: Seq<char>) -> Seq<char> {
    if s.len() > 0 && is_sign(s.first()) {
        s.drop_first()
    } else {
        s
    }
}

/// Whether `s` starts with a minus sign.
pub open spec fn is_negative(s: Seq<char>) -> bool {
    s.len() > 0 && s.first() == '-'
}

/// Whether `s` is the word `inf` or `infinity`, in any case.
pub open spec fn is_inf(s: Seq<char>) -> bool {
    ||| {
        &&& s.len() == 3
        &&& is_letter(s[0], 'i', 'I')
        &&& is_letter(s[1], 'n', 'N')
        &&& is_letter(s[2], 'f', 'F')
    }
    ||| {
        &&& s.len() == 8
        &&& is_letter(s[0], 'i', 'I')
        &&& is_letter(s[1], 'n', 'N')
        &&& is_letter(s[2], 'f', 'F')
        &&& is_letter(s[3], 'i', 'I')
        &&& is_letter(s[4], 'n', 'N')
        &&& is_letter(s[5], 'i', 'I')
        &&& is_letter(s[6], 't', 'T')
        &&& is_letter(s[7], 'y', 'Y')
    }
}

/// Whether `s` is the word `nan`, in any case.
pub open spec fn is_nan(s: Seq<char>) -> bool {
    &&& s.len() == 3
    &&& is_letter(s[0], 'n', 'N')
    &&& is_letter(s[1], 'a', 'A')
    &&& is_letter(s[2], 'n', 'N')
}

/// The exponent that `s` writes: an optional sign, then digits to the end,
/// at least one.
pub open spec fn exponent(s: Seq<char>) -> Option<int> {
    let d = unsigned(s);
    if d.len() > 0 && digits_len(d) == d.len() {
        Some(
            if is_negative(s) {
                -(number(d) as int)
            } else {
                number(d) as int
            },
        )
    } else {
        None
    }
}

/// The number that `s` writes without a sign: digits, an optional point and
/// more digits, with a digit on at least one side of the point, then an
/// optional `e` or `E` and an exponent.
pub open spec fn finite(s: Seq<char>, negative: bool) -> Option<Literal> {
    let whole_end = digits_len(s) as int;
    let pointed = whole_end < s.len() && s[whole_end] == '.';
    let fraction_start = if pointed {
        whole_end + 1
    } else {
        whole_end
    };
    let fraction = if pointed {
        digits_len(s.skip(fraction_start)) as int
    } else {
        0
    };
    let fraction_end = fraction_start + fraction;
    let digits = s.subrange(0, whole_end) + s.subrange(fraction_start, fraction_end);
    if whole_end + fraction == 0 {
        None
    } else if fraction_end >= s.len() {
        Some(Literal::Finite { negative, digits, exponent: -fraction })
    } else if is_letter(s[fraction_end], 'e', 'E') {
        match exponent(s.skip(fraction_end + 1)) {
            Some(e) => Some(Literal::Finite { negative, digits, exponent: e - fraction }),
            None => None,
        }
    } else {
        None
    }
}

/// The literal that `s` writes, if it writes one.
pub open spec fn literal(s: Seq<char>) -> Option<Literal> {
    let body = unsigned(s);
    if is_inf(body) {
        Some(Literal::Infinite { negative: is_negative(s) })
    } else if is_nan(body) {
        Some(Literal::NotANumber)
    } else {
        finite(body, is_negative(s))
    }
}

/// The value of `l`, limited to the range from zero to one, in whole
/// thousandths, rounded down. What is not a number counts as zero.
pub open spec fn thousandths(l: Literal) -> nat {
    match l {
        Literal::NotANumber => 0,
        Literal::Infinite { negative } => if negative {
            0
        } else {
            1000
        },
        Literal::Finite { negative, digits, exponent } => if negative {
            0
        } else if scale(number(digits), exponent + 3) >= 1000 {
            1000
        } else {
            scale(number(digits), exponent + 3)
        },
    }
}

/// The weight that `s` writes, in thousandths, if `s` is a literal.
pub open spec fn weight(s: Seq<char>) -> Option<u16> {
    match literal(s) {
        Some(l) => Some(thousandths(l) as u16),
        None => None,
    }
}

/// Whether every character of `s` is a digit.
pub open spec fn all_digits(s: Seq<char>) -> bool {
    forall|i: int| 0 <= i < s.len() ==> is_digit(#[trigger] s[i])
}

/// The leading digits of `s` are digits, and what follows them is none.
pub proof fn lemma_digits_len(s: Seq<char>)
    ensures
        digits_len(s) <= s.len(),
        all_digits(s.take(digits_len(s) as int)),
        digits_len(s) < s.len() ==> !is_digit(s[digits_len(s) as int]),
    decreases s.len(),
{
    if s.len() > 0 && is_digit(s.first()) {
        let rest = s.drop_first();
        lemma_digits_len(rest);
        let n = digits_len(s) as int;
        assert forall|i: int| 0 <= i < s.take(n).len() implies is_digit(
            #[trigger] s.take(n)[i],
        ) by {
            if i > 0 {
                assert(s.take(n)[i] == rest.take(n - 1)[i - 1]);
            }
        }
    }
}

pub proof fn lemma_pow10_positive(n: nat)
    ensures
        pow10(n) >= 1,
        n >= 3 ==> pow10(n) >= 1000,
    decreases n,
{
    if n > 0 {
        lemma_pow10_positive((n - 1) as nat);
    }
    if n == 3 {
        assert(pow10(3) == 1000) by {
            reveal_with_fuel(pow10, 4);
        }
    }
}

/// One more digit: ten times what stood before, plus the digit.
pub proof fn lemma_number_step(d: Seq<char>, i: int)
    requires
        0 <= i < d.len(),
    ensures
        number(d.take(i + 1)) == 10 * number(d.take(i)) + digit_value(d[i]),
{
    assert(d.take(i + 1).drop_last() == d.take(i));
}

/// A number of `n` digits is below `10^n`.
pub proof fn lemma_number_bound(d: Seq<char>)
    requires
        all_digits(d),
    ensures
        number(d) < pow10(d.len()),
    decreases d.len(),
{
    if d.len() > 0 {
        assert(is_digit(d[d.len() - 1]));
        lemma_number_bound(d.drop_last());
    }
}

/// A longer prefix writes no smaller a number.
pub proof fn lemma_number_monotone(d: Seq<char>, j: int, k: int)
    requires
        0 <= j <= k <= d.len(),
    ensures
        number(d.take(j)) <= number(d.take(k)),
    decreases k - j,
{
    if j < k {
        lemma_number_monotone(d, j, k - 1);
        lemma_number_step(d, k - 1);
    }
}

/// Dividing by `10^j` drops the last `j` digits.
pub proof fn lemma_number_div(d: Seq<char>, j: nat)
    requires
        all_digits(d),
        j <= d.len(),
    ensures
        number(d) / pow10(j) == number(d.take(d.len() - j)),
    decreases j,
{
    if j == 0 {
        assert(d.take(d.len() as int) == d);
        assert(pow10(0) == 1);
    } else {
        let k = (j - 1) as nat;
        lemma_number_div(d, k);
        lemma_pow10_positive(k);
        let t = d.take(d.len() - k);
        assert(t.drop_last() == d.take(d.len() - j));
        assert(is_digit(d[d.len() - j]));
        assert(t.last() == d[d.len() - j]);
        assert(number(t) == 10 * number(t.drop_last()) + digit_value(t.last()));
        assert(number(t) / 10 == number(t.drop_last()));
        lemma_div_denominator(number(d) as int, pow10(k) as int, 10);
        assert(pow10(j) == 10 * pow10(k));
        assert(pow10(k) * 10 == pow10(j)) by (nonlinear_arith)
            requires
                pow10(j) == 10 * pow10(k),
        ;
        assert(number(d) / pow10(j) == (number(d) / pow10(k)) / 10);
    }
}

/// What `scale` gives for a number of `n` digits, by how many of the digits
/// stand before the point: `k = n + e`.
pub proof fn lemma_scale(d: Seq<char>, k: int)
    requires
        all_digits(d),
    ensures
        k < 0 ==> scale(number(d), k - d.len()) == 0,
        0 <= k <= d.len() ==> scale(number(d), k - d.len()) == number(d.take(k)),
        k >= d.len() ==> scale(number(d), k - d.len()) == number(d) * pow10(
            (k - d.len()) as nat,
        ),
{
    let n = d.len() as int;
    if k < 0 {
        lemma_number_bound(d);
        lemma_pow10_grows(d.len(), (n - k) as nat);
        vstd::arithmetic::div_mod::lemma_basic_div(
            number(d) as int,
            pow10((n - k) as nat) as int,
        );
    } else if k < n {
        lemma_number_div(d, (n - k) as nat);
        assert((-(k - n)) as nat == (n - k) as nat);
    } else if k == n {
        assert(d.take(k) == d);
        assert(pow10(0) == 1);
        assert(number(d) * 1 == number(d));
    }
}

/// `pow10` grows with its argument.
pub proof fn lemma_pow10_grows(a: nat, b: nat)
    requires
        a <= b,
    ensures
        pow10(a) <= pow10(b),
    decreases b - a,
{
    if a < b {
        lemma_pow10_grows(a, (b - 1) as nat);
    }
}

/// A number that is not zero, with at least three zeros appended, is at
/// least a thousand.
pub proof fn lemma_scale_up(m: nat, p: nat)
    ensures
        m == 0 ==> m * pow10(p) == 0,
        m >= 1 ==> m * pow10(p) >= pow10(p),
        m * pow10(p) >= m,
        p == 1 ==> m * pow10(p) == m * 10,
        p == 2 ==> m * pow10(p) == m * 100,
{
    lemma_pow10_positive(p);
    if m >= 1 {
        lemma_mul_inequality(1, m as int, pow10(p) as int);
    }
    lemma_mul_inequality(1, pow10(p) as int, m as int);
    assert(m * pow10(p) == pow10(p) * m) by (nonlinear_arith);
    reveal_with_fuel(pow10, 3);
}

/// Beyond this size an exponent moves every digit past the point, whatever
/// the number of digits: it is kept no more exactly.
pub const LIMIT: i128 = 1_000_000_000_000_000_000_000_000;

/// `e`, held within `LIMIT` on either side of zero.
pub open spec fn clip(e: int) -> int {
    if e > LIMIT {
        LIMIT as int
    } else if e < -LIMIT {
        -LIMIT
    } else {
        e
    }
}

/// Decides `is_digit`.
pub(crate) fn digit_char(c: char) -> (b: bool)
    ensures
        b == is_digit(c),
{
    '0' <= c && c <= '9'
}

/// The value of a digit.
pub(crate) fn digit_of(c: char) -> (d: u32)
    requires
        is_digit(c),
    ensures
        d == digit_value(c),
        d <= 9,
{
    c as u32 - '0' as u32
}

/// Where the digits that `v[lo..hi]` starts with end.
pub(crate) fn scan_digits(v: &Vec<char>, lo: usize, hi: usize) -> (end: usize)
    requires
        lo <= hi <= v.len(),
    ensures
        lo <= end <= hi,
        end - lo == digits_len(v@.subrange(lo as int, hi as int)),
{
    let mut i: usize = lo;
    while i < hi && digit_char(v[i])
        invariant
            lo <= i <= hi <= v.len(),
            digits_len(v@.subrange(lo as int, hi as int)) == (i - lo) + digits_len(
                v@.subrange(i as int, hi as int),
            ),
        decreases hi - i,
    {
        assert(v@.subrange(i as int, hi as int).drop_first() == v@.subrange(i + 1, hi as int));
        i += 1;
    }
    i
}

/// The exponent that `v[lo..hi]` writes, held within `LIMIT`.
pub(crate) fn scan_exponent(v: &Vec<char>, lo: usize, hi: usize) -> (r: Option<i128>)
    requires
        lo <= hi <= v.len(),
    ensures
        r == match exponent(v@.subrange(lo as int, hi as int)) {
            Some(e) => Some(clip(e) as i128),
            None => None,
        },
{
    let negative = lo < hi && v[lo] == '-';
    let start: usize = if lo < hi && (v[lo] == '+' || v[lo] == '-') {
        lo + 1
    } else {
        lo
    };
    assert(unsigned(v@.subrange(lo as int, hi as int)) == v@.subrange(start as int, hi as int));
    if start == hi {
        return None;
    }
    let mut i: usize = start;
    let mut m: i128 = 0;
    while i < hi && digit_char(v[i])
        invariant
            start <= i <= hi <= v.len(),
            digits_len(v@.subrange(start as int, hi as int)) == (i - start) + digits_len(
                v@.subrange(i as int, hi as int),
            ),
            0 <= m <= LIMIT,
            m == if number(v@.subrange(start as int, i as int)) >= LIMIT {
                LIMIT as int
            } else {
                number(v@.subrange(start as int, i as int)) as int
            },
        decreases hi - i,
    {
        let dv: u32 = digit_of(v[i]);
        proof {
            assert(v@.subrange(i as int, hi as int).drop_first() == v@.subrange(i + 1, hi as int));
            assert(v@.subrange(start as int, i + 1).drop_last() == v@.subrange(
                start as int,
                i as int,
            ));
        }
        if m < LIMIT {
            let next: i128 = m * 10 + dv as i128;
            m = if next > LIMIT {
                LIMIT
            } else {
                next
            };
        }
        i += 1;
    }
    if i < hi {
        return None;
    }
    Some(
        if negative {
            -m
        } else {
            m
        },
    )
}

/// Whether `v[lo..hi]` is the word `inf` or `infinity`, in any case.
pub(crate) fn word_inf(v: &Vec<char>, lo: usize, hi: usize) -> (b: bool)
    requires
        lo <= hi <= v.len(),
    ensures
        b == is_inf(v@.subrange(lo as int, hi as int)),
{
    let n: usize = hi - lo;
    let short = n == 3 || n == 8;
    if !short {
        return false;
    }
    let start = (v[lo] == 'i' || v[lo] == 'I') && (v[lo + 1] == 'n' || v[lo + 1] == 'N') && (v[lo
        + 2] == 'f' || v[lo + 2] == 'F');
    if n == 3 {
        return start;
    }
    start && (v[lo + 3] == 'i' || v[lo + 3] == 'I') && (v[lo + 4] == 'n' || v[lo + 4] == 'N') && (
    v[lo + 5] == 'i' || v[lo + 5] == 'I') && (v[lo + 6] == 't' || v[lo + 6] == 'T') && (v[lo + 7]
        == 'y' || v[lo + 7] == 'Y')
}

/// Whether `v[lo..hi]` is the word `nan`, in any case.
pub(crate) fn word_nan(v: &Vec<char>, lo: usize, hi: usize) -> (b: bool)
    requires
        lo <= hi <= v.len(),
    ensures
        b == is_nan(v@.subrange(lo as int, hi as int)),
{
    hi - lo == 3 && (v[lo] == 'n' || v[lo] == 'N') && (v[lo + 1] == 'a' || v[lo + 1] == 'A') && (
    v[lo + 2] == 'n' || v[lo + 2] == 'N')
}

/// The thousandths of the number whose digits are `v[a..b]` before the point
/// and `v[c..d]` behind it, with the exponent `e`, of which `shift` is what
/// `clip` keeps.
fn truncated(
    v: &Vec<char>,
    a: usize,
    b: usize,
    c: usize,
    d: usize,
    shift: i128,
    Ghost(e): Ghost<int>,
) -> (r: u16)
    requires
        a <= b <= c <= d <= v.len(),
        all_digits(v@.subrange(a as int, b as int)),
        all_digits(v@.subrange(c as int, d as int)),
        shift == clip(e),
    ensures
        r == thousandths(
            Literal::Finite {
                negative: false,
                digits: v@.subrange(a as int, b as int) + v@.subrange(c as int, d as int),
                exponent: e - (d - c),
            },
        ),
{
    let whole: usize = b - a;
    let n: usize = whole + (d - c);
    let k: i128 = whole as i128 + shift + 3;
    let ghost digits = v@.subrange(a as int, b as int) + v@.subrange(c as int, d as int);
    let ghost point: int = whole + e + 3;
    proof {
        assert(all_digits(digits));
        lemma_scale(digits, point);
        assert(e - (d - c) + 3 == point - digits.len());
    }
    if k < 0 {
        return 0;
    }
    let mut i: usize = 0;
    let mut acc: u32 = 0;
    while i < n && (i as i128) < k && acc < 1000
        invariant
            a <= b <= c <= d <= v.len(),
            whole == b - a,
            n == whole + (d - c),
            digits == v@.subrange(a as int, b as int) + v@.subrange(c as int, d as int),
            all_digits(digits),
            0 <= i <= n,
            i <= k,
            acc == number(digits.take(i as int)),
            acc <= 9999,
        decreases n - i,
    {
        let ch: char = if i < whole {
            v[a + i]
        } else {
            v[c + (i - whole)]
        };
        proof {
            assert(ch == digits[i as int]);
            lemma_number_step(digits, i as int);
        }
        acc = acc * 10 + digit_of(ch);
        i += 1;
    }
    proof {
        lemma_number_monotone(digits, i as int, n as int);
        assert(digits.take(n as int) == digits);
        if 0 <= point <= n {
            if i <= point {
                lemma_number_monotone(digits, i as int, point);
            }
        } else {
            lemma_scale_up(number(digits), (point - n) as nat);
            lemma_pow10_positive((point - n) as nat);
        }
    }
    if acc >= 1000 {
        FULL
    } else if (i as i128) == k {
        acc as u16
    } else if acc == 0 {
        0
    } else if k - (n as i128) >= 3 {
        FULL
    } else if k - (n as i128) == 1 {
        if acc >= 100 {
            FULL
        } else {
            (acc * 10) as u16
        }
    } else {
        if acc >= 10 {
            FULL
        } else {
            (acc * 100) as u16
        }
    }
}

/// How `finite` reads `v[a..hi]`, once the ends of its parts are known: the
/// whole digits `v[a..b]`, the fraction digits `v[c..d]`.
proof fn lemma_finite_parts(v: Seq<char>, a: int, b: int, c: int, d: int, hi: int, negative: bool)
    requires
        0 <= a <= b <= c <= d <= hi <= v.len(),
        b - a == digits_len(v.subrange(a, hi)),
        c == if b < hi && v[b] == '.' {
            b + 1
        } else {
            b
        },
        d - c == if b < hi && v[b] == '.' {
            digits_len(v.subrange(c, hi)) as int
        } else {
            0
        },
    ensures
        all_digits(v.subrange(a, b)),
        all_digits(v.subrange(c, d)),
        (b - a) + (d - c) == 0 ==> finite(v.subrange(a, hi), negative) is None,
        (b - a) + (d - c) > 0 && d == hi ==> finite(v.subrange(a, hi), negative) == Some(
            Literal::Finite {
                negative,
                digits: v.subrange(a, b) + v.subrange(c, d),
                exponent: -(d - c),
            },
        ),
        (b - a) + (d - c) > 0 && d < hi && !is_letter(v[d], 'e', 'E') ==> finite(
            v.subrange(a, hi),
            negative,
        ) is None,
        (b - a) + (d - c) > 0 && d < hi && is_letter(v[d], 'e', 'E') ==> finite(
            v.subrange(a, hi),
            negative,
        ) == match exponent(v.subrange(d + 1, hi)) {
            Some(e) => Some(
                Literal::Finite {
                    negative,
                    digits: v.subrange(a, b) + v.subrange(c, d),
                    exponent: e - (d - c),
                },
            ),
            None => None,
        },
{
    let body = v.subrange(a, hi);
    assert(all_digits(v.subrange(a, b))) by {
        lemma_digits_len(body);
        assert(body.take(b - a) == v.subrange(a, b));
    }
    assert(all_digits(v.subrange(c, d))) by {
        lemma_digits_len(v.subrange(c, hi));
        assert(v.subrange(c, hi).take(d - c) == v.subrange(c, d));
    }
    assert(body.skip(c - a) == v.subrange(c, hi));
    assert(body.subrange(0, b - a) == v.subrange(a, b));
    assert(body.subrange(c - a, d - a) == v.subrange(c, d));
    if b < hi {
        assert(body[b - a] == v[b]);
    }
    if d < hi {
        assert(body[d - a] == v[d]);
        assert(body.skip(d - a + 1) == v.subrange(d + 1, hi));
    }
}

/// The thousandths of the unsigned number that `v[a..hi]` writes, or zero
/// where `negative` says that a minus sign stood before it.
fn finite_in(v: &Vec<char>, a: usize, hi: usize, negative: bool) -> (r: Option<u16>)
    requires
        a <= hi <= v.len(),
    ensures
        r == match finite(v@.subrange(a as int, hi as int), negative) {
            Some(l) => Some(thousandths(l) as u16),
            None => None,
        },
        r matches Some(w) ==> w <= FULL,
{
    let b: usize = scan_digits(v, a, hi);
    let pointed = b < hi && v[b] == '.';
    let c: usize = if pointed {
        b + 1
    } else {
        b
    };
    let d: usize = if pointed {
        scan_digits(v, c, hi)
    } else {
        c
    };
    proof {
        lemma_finite_parts(v@, a as int, b as int, c as int, d as int, hi as int, negative);
    }
    if b - a + (d - c) == 0 {
        return None;
    }
    let shift: i128;
    let ghost e: int;
    if d == hi {
        shift = 0;
        proof {
            e = 0;
        }
    } else if v[d] == 'e' || v[d] == 'E' {
        match scan_exponent(v, d + 1, hi) {
            Some(x) => {
                shift = x;
                proof {
                    e = exponent(v@.subrange(d + 1, hi as int)).unwrap();
                }
            },
            None => {
                return None;
            },
        }
    } else {
        return None;
    }
    if negative {
        return Some(0);
    }
    Some(truncated(v, a, b, c, d, shift, Ghost(e)))
}

/// The weight that `v[lo..hi]` writes, in thousandths, if it is a literal.
pub(crate) fn weight_in(v: &Vec<char>, lo: usize, hi: usize) -> (r: Option<u16>)
    requires
        lo <= hi <= v.len(),
    ensures
        r == weight(v@.subrange(lo as int, hi as int)),
        r matches Some(w) ==> w <= FULL,
{
    let signed = lo < hi && (v[lo] == '+' || v[lo] == '-');
    let negative = lo < hi && v[lo] == '-';
    let a: usize = if signed {
        lo + 1
    } else {
        lo
    };
    assert(unsigned(v@.subrange(lo as int, hi as int)) == v@.subrange(a as int, hi as int));
    if word_inf(v, a, hi) {
        Some(
            if negative {
                0
            } else {
                FULL
            },
        )
    } else if word_nan(v, a, hi) {
        Some(0)
    } else {
        finite_in(v, a, hi, negative)
    }
}

} // verus!
