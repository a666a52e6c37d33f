//! Character sequences: white space, trimming and searching.
//!
//! A string is modelled by its view, a `Seq<char>`. The executable functions
//! work on a `Vec<char>` and on index ranges into it, so that a segment of the
//! input is never copied.

use vstd::prelude::*;

verus! {

/// Whether `c` has the Unicode property `White_Space`.
pub open spec fn is_white_space(c: char) -> bool {
    ||| '\u{9}' <= c <= '\u{D}'
    ||| c == ' '
    ||| c == '\u{85}'
    ||| c == '\u{A0}'
    ||| c == '\u{1680}'
    ||| '\u{2000}' <= c <= '\u{200A}'
    ||| c == '\u{2028}'
    ||| c == '\u{2029}'
    ||| c == '\u{202F}'
    ||| c == '\u{205F}'
    ||| c == '\u{3000}'
}

/// `s` without its leading white space.
pub open spec fn trim_start(s: Seq<char>) -> Seq<char>
    decreases s.len(),
{
    if s.len() > 0 && is_white_space(s.first()) {
        trim_start(s.drop_first())
    } else {
        s
    }
}

/// `s` without its trailing white space.
pub open spec fn trim_end(s: Seq<char>) -> Seq<char>
    decreases s.len(),
{
    if s.len() > 0 && is_white_space(s.last()) {
        trim_end(s.drop_last())
    } else {
        s
    }
}

/// `s` without the white space on either side.
pub open spec fn trim(s: Seq<char>) -> Seq<char> {
    trim_end(trim_start(s))
}

/// The index of the first `sep` in `s`, or `s.len()` where there is none.
pub open spec fn find(s: Seq<char>, sep: char) -> nat
    decreases s.len(),
{
    if s.len() == 0 || s.first() == sep {
        0
    } else {
        1 + find(s.drop_first(), sep)
    }
}

/// What stands in `s` before the first `sep`: all of `s` where there is none.
pub open spec fn head(s: Seq<char>, sep: char) -> Seq<char> {
    s.take(find(s, sep) as int)
}

/// What follows the first `sep` in `s`, if there is one.
pub open spec fn tail(s: Seq<char>, sep: char) -> Option<Seq<char>> {
    if find(s, sep) < s.len() {
        Some(s.skip(find(s, sep) as int + 1))
    } else {
        None
    }
}

/// Whether `s` holds white space only.
pub open spec fn all_white(s: Seq<char>) -> bool {
    forall|i: int| 0 <= i < s.len() ==> is_white_space(#[trigger] s[i])
}

/// Whether `sep` does not occur in `s`.
pub open spec fn free_of(s: Seq<char>, sep: char) -> bool {
    forall|i: int| 0 <= i < s.len() ==> #[trigger] s[i] != sep
}

/// A text with a `sep` is what stands before the first one, the `sep`, and
/// what stands behind it; and no `sep` stands before the first one.
pub proof fn lemma_head_tail(s: Seq<char>, sep: char)
    ensures
        free_of(head(s, sep), sep),
        find(s, sep) <= s.len(),
        tail(s, sep) matches Some(rest) ==> s == head(s, sep) + seq![sep] + rest && rest.len()
            < s.len(),
        tail(s, sep) is None ==> head(s, sep) == s,
    decreases s.len(),
{
    if s.len() == 0 || s.first() == sep {
        assert(head(s, sep) == Seq::<char>::empty());
        if s.len() > 0 {
            assert(s == Seq::<char>::empty() + seq![sep] + s.skip(1));
        }
    } else {
        let rest = s.drop_first();
        lemma_head_tail(rest, sep);
        let h = head(s, sep);
        assert(h == seq![s.first()] + head(rest, sep));
        assert forall|i: int| 0 <= i < h.len() implies #[trigger] h[i] != sep by {
            if i > 0 {
                assert(h[i] == head(rest, sep)[i - 1]);
            }
        }
        match tail(rest, sep) {
            Some(behind) => {
                assert(tail(s, sep) == Some(behind));
                assert(s == seq![s.first()] + rest);
                assert(s == h + seq![sep] + behind);
            },
            None => {
                assert(s == seq![s.first()] + rest);
            },
        }
    }
}

/// Where `sep` does not occur, `find` gives the length, `head` gives all,
/// and `tail` gives nothing.
pub proof fn lemma_find_absent(s: Seq<char>, sep: char)
    requires
        free_of(s, sep),
    ensures
        find(s, sep) == s.len(),
        head(s, sep) == s,
        tail(s, sep) is None,
    decreases s.len(),
{
    if s.len() > 0 {
        assert(s[0] != sep);
        let rest = s.drop_first();
        assert forall|i: int| 0 <= i < rest.len() implies #[trigger] rest[i] != sep by {
            assert(rest[i] == s[i + 1]);
        }
        lemma_find_absent(rest, sep);
    }
    assert(s.take(s.len() as int) == s);
}

/// Text that is cut at a `sep`, where none stands before the cut: `head`
/// gives what stands before it and `tail` what stands behind.
pub proof fn lemma_cut(a: Seq<char>, sep: char, b: Seq<char>)
    requires
        free_of(a, sep),
    ensures
        find(a + seq![sep] + b, sep) == a.len(),
        head(a + seq![sep] + b, sep) == a,
        tail(a + seq![sep] + b, sep) == Some(b),
    decreases a.len(),
{
    let whole = a + seq![sep] + b;
    if a.len() == 0 {
        assert(whole.first() == sep);
    } else {
        assert(whole.first() == a[0]);
        let rest = a.drop_first();
        assert forall|i: int| 0 <= i < rest.len() implies #[trigger] rest[i] != sep by {
            assert(rest[i] == a[i + 1]);
        }
        assert(whole.drop_first() == rest + seq![sep] + b);
        lemma_cut(rest, sep, b);
    }
    assert(whole.take(a.len() as int) == a);
    assert(whole.skip(a.len() as int + 1) == b);
}

/// White space at the start is dropped, whatever follows it.
pub proof fn lemma_trim_start_padded(pad: Seq<char>, s: Seq<char>)
    requires
        all_white(pad),
    ensures
        trim_start(pad + s) == trim_start(s),
    decreases pad.len(),
{
    if pad.len() == 0 {
        assert(pad + s == s);
    } else {
        assert((pad + s).first() == pad[0]);
        let rest = pad.drop_first();
        assert forall|i: int| 0 <= i < rest.len() implies is_white_space(#[trigger] rest[i]) by {
            assert(rest[i] == pad[i + 1]);
        }
        assert((pad + s).drop_first() == rest + s);
        lemma_trim_start_padded(rest, s);
    }
}

/// White space at the end is dropped, whatever stands before it.
pub proof fn lemma_trim_end_padded(s: Seq<char>, pad: Seq<char>)
    requires
        all_white(pad),
    ensures
        trim_end(s + pad) == trim_end(s),
    decreases pad.len(),
{
    if pad.len() == 0 {
        assert(s + pad == s);
    } else {
        assert((s + pad).last() == pad[pad.len() - 1]);
        let rest = pad.drop_last();
        assert forall|i: int| 0 <= i < rest.len() implies is_white_space(#[trigger] rest[i]) by {
            assert(rest[i] == pad[i]);
        }
        assert((s + pad).drop_last() == s + rest);
        lemma_trim_end_padded(s, rest);
    }
}

/// What is left of text that starts behind its leading white space, once
/// white space is appended: the same text with the white space, unless
/// there was nothing but white space.
proof fn lemma_trim_start_append(s: Seq<char>, pad: Seq<char>)
    requires
        all_white(pad),
    ensures
        trim_start(s + pad) == if trim_start(s).len() == 0 {
            Seq::<char>::empty()
        } else {
            trim_start(s) + pad
        },
    decreases s.len(),
{
    if s.len() == 0 {
        assert(s + pad == pad);
        lemma_trim_start_padded(pad, Seq::<char>::empty());
        assert(pad + Seq::<char>::empty() == pad);
    } else {
        assert((s + pad).first() == s.first());
        if is_white_space(s.first()) {
            assert((s + pad).drop_first() == s.drop_first() + pad);
            lemma_trim_start_append(s.drop_first(), pad);
        }
    }
}

/// White space around a text does not change what trimming leaves of it.
pub proof fn lemma_trim_padded(left: Seq<char>, s: Seq<char>, right: Seq<char>)
    requires
        all_white(left),
        all_white(right),
    ensures
        trim(left + s + right) == trim(s),
{
    assert(left + s + right == left + (s + right));
    lemma_trim_start_padded(left, s + right);
    lemma_trim_start_append(s, right);
    if trim_start(s).len() > 0 {
        lemma_trim_end_padded(trim_start(s), right);
    }
}

/// Where the first `sep` of two texts put together stands: in the first
/// text where it has one, else where the second has it.
pub proof fn lemma_find_append(s: Seq<char>, r: Seq<char>, sep: char)
    ensures
        find(s, sep) <= s.len(),
        find(s + r, sep) == if find(s, sep) < s.len() {
            find(s, sep)
        } else {
            s.len() + find(r, sep)
        },
    decreases s.len(),
{
    if s.len() == 0 {
        assert(s + r == r);
    } else {
        assert((s + r).first() == s.first());
        if s.first() != sep {
            assert((s + r).drop_first() == s.drop_first() + r);
            lemma_find_append(s.drop_first(), r, sep);
        }
    }
}

/// Text without a `sep` before another text: the first `sep` is that of
/// the other text.
pub proof fn lemma_head_append(x: Seq<char>, v: Seq<char>, sep: char)
    requires
        free_of(x, sep),
    ensures
        head(x + v, sep) == x + head(v, sep),
        tail(x + v, sep) == tail(v, sep),
{
    lemma_find_absent(x, sep);
    lemma_find_append(x, v, sep);
    lemma_find_append(v, Seq::<char>::empty(), sep);
    let k = find(v, sep) as int;
    assert((x + v).take(x.len() + k) == x + v.take(k));
    if k < v.len() {
        assert((x + v).skip(x.len() + k + 1) == v.skip(k + 1));
    }
}

/// A text is white space, what trimming leaves of it, and white space
/// again; and what trimming leaves neither starts nor ends with white
/// space.
pub proof fn lemma_trim_parts(x: Seq<char>) -> (pads: (Seq<char>, Seq<char>))
    ensures
        all_white(pads.0),
        all_white(pads.1),
        x == pads.0 + trim(x) + pads.1,
        trim(x).len() > 0 ==> !is_white_space(trim(x).first()) && !is_white_space(trim(x).last()),
{
    let left = lemma_trim_start_parts(x);
    let right = lemma_trim_end_parts(trim_start(x));
    assert(x == left + trim(x) + right);
    (left, right)
}

/// A text is white space and what is left behind it, which does not start
/// with white space.
proof fn lemma_trim_start_parts(x: Seq<char>) -> (left: Seq<char>)
    ensures
        all_white(left),
        x == left + trim_start(x),
        trim_start(x).len() > 0 ==> !is_white_space(trim_start(x).first()),
    decreases x.len(),
{
    if x.len() > 0 && is_white_space(x.first()) {
        let rest = lemma_trim_start_parts(x.drop_first());
        let left = seq![x.first()] + rest;
        assert(x == seq![x.first()] + x.drop_first());
        assert(x == left + trim_start(x));
        left
    } else {
        assert(x == Seq::<char>::empty() + x);
        Seq::<char>::empty()
    }
}

/// A text is what is left before its trailing white space, and that white
/// space; what is left does not end with white space, and starts as the
/// text does.
proof fn lemma_trim_end_parts(x: Seq<char>) -> (right: Seq<char>)
    ensures
        all_white(right),
        x == trim_end(x) + right,
        trim_end(x).len() > 0 ==> !is_white_space(trim_end(x).last()) && trim_end(x).first()
            == x.first(),
    decreases x.len(),
{
    if x.len() > 0 && is_white_space(x.last()) {
        let rest = lemma_trim_end_parts(x.drop_last());
        let right = rest + seq![x.last()];
        assert(x == x.drop_last() + seq![x.last()]);
        assert(x == trim_end(x) + right);
        if trim_end(x).len() > 0 {
            assert(x.drop_last().first() == x.first());
        }
        right
    } else {
        assert(x == x + Seq::<char>::empty());
        Seq::<char>::empty()
    }
}

/// What trimming leaves stays as it is when it is trimmed again.
pub proof fn lemma_trim_idempotent(x: Seq<char>)
    ensures
        trim(trim(x)) == trim(x),
{
    let pads = lemma_trim_parts(x);
}

/// White space is none of the separators.
pub proof fn lemma_white_is_no_separator(pad: Seq<char>)
    requires
        all_white(pad),
    ensures
        free_of(pad, ','),
        free_of(pad, ';'),
        free_of(pad, '='),
{
    assert forall|i: int| 0 <= i < pad.len() implies #[trigger] pad[i] != ',' && pad[i] != ';'
        && pad[i] != '=' by {
        assert(is_white_space(pad[i]));
    }
}

/// A separator that occurs in no part occurs nowhere in the whole.
pub proof fn lemma_free_of_concat(a: Seq<char>, b: Seq<char>, sep: char)
    requires
        free_of(a, sep),
        free_of(b, sep),
    ensures
        free_of(a + b, sep),
{
    assert forall|i: int| 0 <= i < (a + b).len() implies #[trigger] (a + b)[i] != sep by {
        if i < a.len() {
            assert((a + b)[i] == a[i]);
        } else {
            assert((a + b)[i] == b[i - a.len()]);
        }
    }
}

/// Decides `is_white_space`.
pub fn white_space(c: char) -> (b: bool)
    ensures
        b == is_white_space(c),
{
    ('\u{9}' <= c && c <= '\u{D}') || c == ' ' || c == '\u{85}' || c == '\u{A0}' || c
        == '\u{1680}' || ('\u{2000}' <= c && c <= '\u{200A}') || c == '\u{2028}' || c
        == '\u{2029}' || c == '\u{202F}' || c == '\u{205F}' || c == '\u{3000}'
}

/// The characters of `s`, in order.
pub fn to_chars(s: &str) -> (v: Vec<char>)
    ensures
        v@ == s@,
{
    let mut v: Vec<char> = Vec::new();
    for c in it: s.chars()
        invariant
            v@ == it.seq().take(it.index() as int),
            it.seq() == s@,
    {
        v.push(c);
    }
    v
}

/// The bounds of `v[lo..hi]` once trimmed.
pub(crate) fn trim_bounds(v: &Vec<char>, lo: usize, hi: usize) -> (r: (usize, usize))
    requires
        lo <= hi <= v.len(),
    ensures
        lo <= r.0 <= r.1 <= hi,
        v@.subrange(r.0 as int, r.1 as int) == trim(v@.subrange(lo as int, hi as int)),
{
    let mut a: usize = lo;
    while a < hi && white_space(v[a])
        invariant
            lo <= a <= hi <= v.len(),
            trim_start(v@.subrange(lo as int, hi as int)) == trim_start(
                v@.subrange(a as int, hi as int),
            ),
        decreases hi - a,
    {
        assert(v@.subrange(a as int, hi as int).drop_first() == v@.subrange(a + 1, hi as int));
        a += 1;
    }
    let mut b: usize = hi;
    while a < b && white_space(v[b - 1])
        invariant
            a <= b <= hi <= v.len(),
            trim_end(v@.subrange(a as int, hi as int)) == trim_end(
                v@.subrange(a as int, b as int),
            ),
        decreases b - a,
    {
        assert(v@.subrange(a as int, b as int).drop_last() == v@.subrange(a as int, b - 1));
        b -= 1;
    }
    (a, b)
}

/// The index of the first `sep` in `v[lo..hi]`, or `hi` where there is none.
pub(crate) fn find_in(v: &Vec<char>, lo: usize, hi: usize, sep: char) -> (i: usize)
    requires
        lo <= hi <= v.len(),
    ensures
        lo <= i <= hi,
        i - lo == find(v@.subrange(lo as int, hi as int), sep),
{
    let mut i: usize = lo;
    while i < hi && v[i] != sep
        invariant
            lo <= i <= hi <= v.len(),
            find(v@.subrange(lo as int, hi as int), sep) == (i - lo) + find(
                v@.subrange(i as int, hi as int),
                sep,
            ),
        decreases hi - i,
    {
        assert(v@.subrange(i as int, hi as int).drop_first() == v@.subrange(i + 1, hi as int));
        i += 1;
    }
    i
}

} // verus!
