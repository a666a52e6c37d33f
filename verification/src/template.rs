//! What a template source may hold.
//!
//! The template engine and its parser do not return on every text. A source
//! is taken only where it holds none of what they fail on:
//!
//! - a placeable that holds nothing but another placeable, or a selector
//!   that is a literal: past a hundred placeables the engine gives up, and
//!   it can only do so in good order where every placeable on the way is a
//!   reference, a variable or a function call;
//! - a number with twenty or more digits behind the point, which the
//!   engine's plural rules cannot hold;
//! - a `\u` or `\U` with too few hexadecimal digits behind it and a
//!   character outside ASCII where the next digit should stand, which the
//!   parser cannot report;
//! - more than two hundred placeables and calls in one entry, which the
//!   parser and the engine go through by recursion.
//!
//! All of it is read off the text, on the safe side: text that only looks
//! like one of these is not taken either.

use crate::decimal::is_digit;
use crate::text::is_white_space;
use crate::text::white_space;
use vstd::prelude::*;

verus! {

/// How many placeables and calls one entry may open.
pub const DEPTH: usize = 200;

/// How many digits a number may have behind the point, and one more.
pub const FRACTION: usize = 20;

/// Why a source is not taken.
#[derive(Debug, Clone, Copy, PartialEq, Eq)]
pub enum Refusal {
    /// A placeable opens directly inside a placeable.
    NestedPlaceable,
    /// A selector is a string or a number.
    LiteralSelector,
    /// An escape has too few digits, and what follows them is not ASCII.
    BrokenEscape,
    /// A number has too many digits behind the point.
    LongFraction,
    /// An entry opens too many placeables and calls.
    DeepNesting,
}

/// Whether `c` can stand in a number: a digit, a point or a minus sign.
pub open spec fn is_number_char(c: char) -> bool {
    '0' <= c <= '9' || c == '.' || c == '-'
}

pub open spec fn is_hex(c: char) -> bool {
    '0' <= c <= '9' || 'a' <= c <= 'f' || 'A' <= c <= 'F'
}

pub open spec fn is_ascii_letter(c: char) -> bool {
    'a' <= c <= 'z' || 'A' <= c <= 'Z'
}

/// Whether `c` can stand in a name: a letter, a digit, `_` or `-`.
pub open spec fn is_name_char(c: char) -> bool {
    is_ascii_letter(c) || '0' <= c <= '9' || c == '_' || c == '-'
}

/// Whether `c` opens a placeable or the arguments of a call.
pub open spec fn opens(c: char) -> bool {
    c == '{' || c == '('
}

/// How many bytes `c` takes in UTF-8.
pub open spec fn utf8_len(c: char) -> nat {
    if c <= '\u{7f}' {
        1
    } else if c <= '\u{7ff}' {
        2
    } else if c <= '\u{ffff}' {
        3
    } else {
        4
    }
}

/// How many bytes the first `i` characters of `s` take in UTF-8.
pub open spec fn bytes_before(s: Seq<char>, i: int) -> nat
    decreases i,
{
    if 0 < i <= s.len() {
        bytes_before(s, i - 1) + utf8_len(s[i - 1])
    } else {
        0
    }
}

/// The first place from `i` on where no white space stands, or the length.
pub open spec fn skip_white(s: Seq<char>, i: int) -> int
    decreases s.len() - i,
{
    if 0 <= i < s.len() && is_white_space(s[i]) {
        skip_white(s, i + 1)
    } else {
        i
    }
}

/// The first place from `i` on where no space stands, or the length.
pub open spec fn skip_spaces(s: Seq<char>, i: int) -> int
    decreases s.len() - i,
{
    if 0 <= i < s.len() && s[i] == ' ' {
        skip_spaces(s, i + 1)
    } else {
        i
    }
}

/// The first place from `i` on where no name character stands, or the
/// length.
pub open spec fn name_end(s: Seq<char>, i: int) -> int
    decreases s.len() - i,
{
    if 0 <= i < s.len() && is_name_char(s[i]) {
        name_end(s, i + 1)
    } else {
        i
    }
}

/// How many hexadecimal digits stand from `i` on, counted up to `most`.
pub open spec fn hex_run(s: Seq<char>, i: int, most: nat) -> nat
    decreases most,
{
    if most > 0 && 0 <= i < s.len() && is_hex(s[i]) {
        1 + hex_run(s, i + 1, (most - 1) as nat)
    } else {
        0
    }
}

/// How many digits stand from `i` on, counted up to `most`.
pub open spec fn digit_run(s: Seq<char>, i: int, most: nat) -> nat
    decreases most,
{
    if most > 0 && 0 <= i < s.len() && is_digit(s[i]) {
        1 + digit_run(s, i + 1, (most - 1) as nat)
    } else {
        0
    }
}

/// The least place such that only white space stands from it up to `i`.
pub open spec fn back_white(s: Seq<char>, i: int) -> int
    decreases i,
{
    if 0 < i <= s.len() && is_white_space(s[i - 1]) {
        back_white(s, i - 1)
    } else {
        i
    }
}

/// The least place such that only number characters stand from it up to
/// `i`.
pub open spec fn back_number(s: Seq<char>, i: int) -> int
    decreases i,
{
    if 0 < i <= s.len() && is_number_char(s[i - 1]) {
        back_number(s, i - 1)
    } else {
        i
    }
}

/// Whether a `{` stands at `i` and the next character that is no white
/// space is a `{` too.
pub open spec fn nested_at(s: Seq<char>, i: int) -> bool {
    &&& 0 <= i < s.len()
    &&& s[i] == '{'
    &&& skip_white(s, i + 1) < s.len()
    &&& s[skip_white(s, i + 1)] == '{'
}

/// Whether a `"` stands at `q` behind a `{`, white space apart: a string
/// can open there.
pub open spec fn string_opens_at(s: Seq<char>, q: int) -> bool {
    &&& 0 <= q < s.len()
    &&& s[q] == '"'
    &&& 0 < back_white(s, q)
    &&& s[back_white(s, q) - 1] == '{'
}

/// Whether a string can open before `j` on the line of `j`.
pub open spec fn string_opens_before(s: Seq<char>, j: int) -> bool
    decreases j,
{
    if 0 < j <= s.len() && s[j - 1] != '\n' {
        string_opens_at(s, j - 1) || string_opens_before(s, j - 1)
    } else {
        false
    }
}

/// Whether what stands before `i`, white space apart, ends a string that
/// can have opened behind a `{` on the same line, or is a run of number
/// characters that follows a `{`, white space apart.
pub open spec fn literal_before(s: Seq<char>, i: int) -> bool {
    let end = back_white(s, i);
    let start = back_number(s, end);
    let open = back_white(s, start);
    &&& 0 < end <= s.len()
    &&& if s[end - 1] == '"' {
        string_opens_before(s, end - 1)
    } else {
        start < end && 0 < open && s[open - 1] == '{'
    }
}

/// Whether a `->` stands at `i` behind a string or a number.
pub open spec fn literal_selector_at(s: Seq<char>, i: int) -> bool {
    &&& 0 <= i
    &&& i + 1 < s.len()
    &&& s[i] == '-'
    &&& s[i + 1] == '>'
    &&& literal_before(s, i)
}

/// How many digits the escape that starts with the letter `c` takes.
pub open spec fn escape_digits(c: char) -> nat {
    if c == 'u' {
        4
    } else {
        6
    }
}

/// Whether a `\u` or `\U` stands at `i` with too few hexadecimal digits
/// behind it, and a character outside ASCII where the next should stand.
pub open spec fn broken_escape_at(s: Seq<char>, i: int) -> bool {
    &&& 0 <= i
    &&& i + 1 < s.len()
    &&& s[i] == '\\'
    &&& (s[i + 1] == 'u' || s[i + 1] == 'U')
    &&& hex_run(s, i + 2, escape_digits(s[i + 1])) < escape_digits(s[i + 1])
    &&& i + 2 + hex_run(s, i + 2, escape_digits(s[i + 1])) < s.len()
    &&& s[i + 2 + hex_run(s, i + 2, escape_digits(s[i + 1]))] > '\u{7f}'
}

/// Whether a point stands at `i` with too many digits behind it.
pub open spec fn long_fraction_at(s: Seq<char>, i: int) -> bool {
    &&& 0 <= i < s.len()
    &&& s[i] == '.'
    &&& digit_run(s, i + 1, FRACTION as nat) >= FRACTION
}

/// Whether a line starts at `k` that can only be the start of an entry: a
/// comment, or a definition, which is a name, with a `-` before it for a
/// term, then spaces at most, and `=`.
pub open spec fn starts_definition(s: Seq<char>, k: int) -> bool {
    let name = if 0 <= k < s.len() && s[k] == '-' {
        k + 1
    } else {
        k
    };
    let sign = skip_spaces(s, name_end(s, name));
    &&& 0 <= k < s.len()
    &&& (k == 0 || s[k - 1] == '\n')
    &&& (s[k] == '#' || {
        &&& name < s.len()
        &&& is_ascii_letter(s[name])
        &&& sign < s.len()
        &&& s[sign] == '='
    })
}

/// How many placeables and calls are opened before `i` since the last start
/// of an entry.
pub open spec fn opened(s: Seq<char>, i: int) -> nat
    decreases i,
{
    if 0 < i <= s.len() {
        let before: nat = if starts_definition(s, i - 1) {
            0
        } else {
            opened(s, i - 1)
        };
        if opens(s[i - 1]) {
            before + 1
        } else {
            before
        }
    } else {
        0
    }
}

/// Whether the placeable or call that opens at `i` is one too many.
pub open spec fn deep_at(s: Seq<char>, i: int) -> bool {
    &&& 0 <= i < s.len()
    &&& opens(s[i])
    &&& opened(s, i + 1) > DEPTH
}

/// What is wrong at `i`, if anything is.
pub open spec fn refusal_at(s: Seq<char>, i: int) -> Option<Refusal> {
    if deep_at(s, i) {
        Some(Refusal::DeepNesting)
    } else if nested_at(s, i) {
        Some(Refusal::NestedPlaceable)
    } else if literal_selector_at(s, i) {
        Some(Refusal::LiteralSelector)
    } else if broken_escape_at(s, i) {
        Some(Refusal::BrokenEscape)
    } else if long_fraction_at(s, i) {
        Some(Refusal::LongFraction)
    } else {
        None
    }
}

/// Whether the source is taken: nothing is wrong at any place.
pub open spec fn guarded(s: Seq<char>) -> bool {
    forall|i: int| 0 <= i < s.len() ==> (#[trigger] refusal_at(s, i)) is None
}

/// Whether a `{` stands before `q`, white space apart.
fn follows_brace(v: &Vec<char>, q: usize) -> (b: bool)
    requires
        q <= v.len(),
    ensures
        b == (0 < back_white(v@, q as int) && v@[back_white(v@, q as int) - 1] == '{'),
{
    let mut open: usize = q;
    while open > 0 && white_space(v[open - 1])
        invariant
            open <= q <= v.len(),
            back_white(v@, q as int) == back_white(v@, open as int),
        decreases open,
    {
        open -= 1;
    }
    open > 0 && v[open - 1] == '{'
}

/// Decides `literal_before`.
fn literal_ends(v: &Vec<char>, i: usize) -> (b: bool)
    requires
        i <= v.len(),
    ensures
        b == literal_before(v@, i as int),
{
    let mut end: usize = i;
    while end > 0 && white_space(v[end - 1])
        invariant
            end <= i <= v.len(),
            back_white(v@, i as int) == back_white(v@, end as int),
        decreases end,
    {
        end -= 1;
    }
    if end == 0 {
        return false;
    }
    if v[end - 1] == '"' {
        let mut j: usize = end - 1;
        while j > 0 && v[j - 1] != '\n'
            invariant
                j < end <= v.len(),
                i <= v.len(),
                back_white(v@, i as int) == end,
                v@[end - 1] == '"',
                string_opens_before(v@, end - 1) == string_opens_before(v@, j as int),
            decreases j,
        {
            if v[j - 1] == '"' && follows_brace(v, j - 1) {
                assert(string_opens_at(v@, j - 1));
                assert(string_opens_before(v@, j as int));
                return true;
            }
            assert(!string_opens_at(v@, j - 1));
            j -= 1;
        }
        return false;
    }
    let mut start: usize = end;
    while start > 0 && (('0' <= v[start - 1] && v[start - 1] <= '9') || v[start - 1] == '.'
        || v[start - 1] == '-')
        invariant
            start <= end <= v.len(),
            back_number(v@, end as int) == back_number(v@, start as int),
        decreases start,
    {
        start -= 1;
    }
    if start == end {
        return false;
    }
    follows_brace(v, start)
}

/// Decides `nested_at` for a place where a `{` stands.
fn opens_nested(v: &Vec<char>, i: usize) -> (b: bool)
    requires
        i < v.len(),
        v@[i as int] == '{',
    ensures
        b == nested_at(v@, i as int),
{
    let mut next: usize = i + 1;
    while next < v.len() && white_space(v[next])
        invariant
            i < next <= v.len(),
            skip_white(v@, i + 1) == skip_white(v@, next as int),
        decreases v.len() - next,
    {
        next += 1;
    }
    next < v.len() && v[next] == '{'
}

/// Decides `is_hex`.
fn hex_char(c: char) -> (b: bool)
    ensures
        b == is_hex(c),
{
    ('0' <= c && c <= '9') || ('a' <= c && c <= 'f') || ('A' <= c && c <= 'F')
}

/// Decides `is_ascii_letter`.
fn letter_char(c: char) -> (b: bool)
    ensures
        b == is_ascii_letter(c),
{
    ('a' <= c && c <= 'z') || ('A' <= c && c <= 'Z')
}

/// Decides `broken_escape_at` for a place where a `\` stands.
fn escape_broken(v: &Vec<char>, i: usize) -> (b: bool)
    requires
        i < v.len(),
        v@[i as int] == '\\',
    ensures
        b == broken_escape_at(v@, i as int),
{
    if !(i + 1 < v.len() && (v[i + 1] == 'u' || v[i + 1] == 'U')) {
        return false;
    }
    let need: usize = if v[i + 1] == 'u' {
        4
    } else {
        6
    };
    let mut k: usize = 0;
    while k < need && i + 2 + k < v.len() && hex_char(v[i + 2 + k])
        invariant
            k <= need <= 6,
            i + 2 + k <= v.len(),
            hex_run(v@, i + 2, need as nat) == k + hex_run(v@, i + 2 + k, (need - k) as nat),
        decreases need - k,
    {
        k += 1;
    }
    k < need && i + 2 + k < v.len() && v[i + 2 + k] > '\u{7f}'
}

/// Decides `long_fraction_at` for a place where a point stands.
fn fraction_long(v: &Vec<char>, i: usize) -> (b: bool)
    requires
        i < v.len(),
        v@[i as int] == '.',
    ensures
        b == long_fraction_at(v@, i as int),
{
    let mut k: usize = 0;
    while k < FRACTION && i + 1 + k < v.len() && '0' <= v[i + 1 + k] && v[i + 1 + k] <= '9'
        invariant
            k <= FRACTION,
            i + 1 + k <= v.len(),
            digit_run(v@, i + 1, FRACTION as nat) == k + digit_run(
                v@,
                i + 1 + k,
                (FRACTION - k) as nat,
            ),
        decreases FRACTION - k,
    {
        k += 1;
    }
    k >= FRACTION
}

/// Decides `starts_definition`.
fn definition_starts(v: &Vec<char>, k: usize) -> (b: bool)
    requires
        k < v.len(),
    ensures
        b == starts_definition(v@, k as int),
{
    if !(k == 0 || v[k - 1] == '\n') {
        return false;
    }
    if v[k] == '#' {
        return true;
    }
    let name: usize = if v[k] == '-' {
        k + 1
    } else {
        k
    };
    if !(name < v.len() && letter_char(v[name])) {
        return false;
    }
    let mut end: usize = name;
    while end < v.len() && (letter_char(v[end]) || ('0' <= v[end] && v[end] <= '9') || v[end]
        == '_' || v[end] == '-')
        invariant
            name <= end <= v.len(),
            name_end(v@, name as int) == name_end(v@, end as int),
        decreases v.len() - end,
    {
        end += 1;
    }
    let mut sign: usize = end;
    while sign < v.len() && v[sign] == ' '
        invariant
            end <= sign <= v.len(),
            skip_spaces(v@, end as int) == skip_spaces(v@, sign as int),
        decreases v.len() - sign,
    {
        sign += 1;
    }
    sign < v.len() && v[sign] == '='
}

/// Decides what is wrong at `i`, deep nesting apart.
fn refusal_in(v: &Vec<char>, i: usize) -> (r: Option<Refusal>)
    requires
        i < v.len(),
    ensures
        !deep_at(v@, i as int) ==> r == refusal_at(v@, i as int),
{
    let c = v[i];
    if c == '{' {
        if opens_nested(v, i) {
            return Some(Refusal::NestedPlaceable);
        }
    } else if c == '-' {
        if i + 1 < v.len() && v[i + 1] == '>' && literal_ends(v, i) {
            return Some(Refusal::LiteralSelector);
        }
    } else if c == '\\' {
        if escape_broken(v, i) {
            return Some(Refusal::BrokenEscape);
        }
    } else if c == '.' {
        if fraction_long(v, i) {
            return Some(Refusal::LongFraction);
        }
    }
    None
}

/// Looks for the first place where the source holds what is not taken.
pub fn scan(v: &Vec<char>) -> (r: Option<(usize, Refusal)>)
    ensures
        r is None <==> guarded(v@),
        r matches Some((at, refusal)) ==> at < v.len() && refusal_at(v@, at as int) == Some(
            refusal,
        ) && forall|i: int| 0 <= i < at ==> (#[trigger] refusal_at(v@, i)) is None,
{
    let mut i: usize = 0;
    let mut open: usize = 0;
    while i < v.len()
        invariant
            i <= v.len(),
            open == opened(v@, i as int),
            open <= DEPTH,
            forall|k: int| 0 <= k < i ==> (#[trigger] refusal_at(v@, k)) is None,
        decreases v.len() - i,
    {
        if definition_starts(v, i) {
            open = 0;
        }
        if v[i] == '{' || v[i] == '(' {
            open += 1;
            if open > DEPTH {
                assert(refusal_at(v@, i as int) == Some(Refusal::DeepNesting));
                return Some((i, Refusal::DeepNesting));
            }
        }
        assert(!deep_at(v@, i as int));
        match refusal_in(v, i) {
            Some(refusal) => {
                return Some((i, refusal));
            },
            None => {},
        }
        i += 1;
    }
    None
}

/// How many bytes the first `i` characters of `v` take in UTF-8, as far as
/// a `usize` can hold it.
pub fn byte_offset(v: &Vec<char>, i: usize) -> (n: usize)
    requires
        i <= v.len(),
    ensures
        n == if bytes_before(v@, i as int) <= usize::MAX {
            bytes_before(v@, i as int)
        } else {
            usize::MAX as nat
        },
{
    let mut k: usize = 0;
    let mut n: usize = 0;
    while k < i
        invariant
            k <= i <= v.len(),
            n == if bytes_before(v@, k as int) <= usize::MAX {
                bytes_before(v@, k as int)
            } else {
                usize::MAX as nat
            },
        decreases i - k,
    {
        let c = v[k];
        let len: usize = if c <= '\u{7f}' {
            1
        } else if c <= '\u{7ff}' {
            2
        } else if c <= '\u{ffff}' {
            3
        } else {
            4
        };
        n = if n > usize::MAX - len {
            usize::MAX
        } else {
            n + len
        };
        k += 1;
    }
    n
}

} // verus!
