//! Reading a client's language preferences.
//!
//! The preferences come as one string: entries separated by commas, each a
//! language tag, optionally followed by `;` and a weight written `q=` and a
//! decimal number. White space around an entry, around the `;` and around
//! the `=` is ignored. An entry whose tag is not well formed is left out;
//! the others are ranked by weight, heaviest first, entries of one weight in
//! the order in which they were written.
//!
//! An entry without a parameter, or with a parameter that is not written as
//! a weight, has the full weight. A weight whose number cannot be read counts
//! as zero.

use crate::decimal::{weight, weight_in, FULL};
use crate::langid::{canonical_tag, LocaleId};
use crate::list::LanguageArray;
use crate::ranking::{
    languages, lemma_insert_entry, lemma_rank_len, place_of, rank, weights, Entry,
};
use crate::text::{
    all_white, find, find_in, free_of, head, lemma_cut, lemma_find_absent, lemma_find_append,
    lemma_free_of_concat, lemma_head_append, lemma_head_tail, lemma_trim_idempotent,
    lemma_trim_padded, lemma_trim_parts, lemma_white_is_no_separator, tail, to_chars, trim,
    trim_bounds,
};
use vstd::prelude::*;

verus! {

/// Whether the parameter `segment` is written as a weight: the name `q`,
/// and an `=` behind it.
pub open spec fn names_weight(segment: Seq<char>) -> bool {
    trim(head(segment, '=')) == seq!['q'] && tail(segment, '=') is Some
}

/// The weight that the parameter `segment` states: none where the parameter
/// is not written as a weight, and none where its value is no number.
pub open spec fn quality_of(segment: Seq<char>) -> Option<u16> {
    match tail(segment, '=') {
        Some(rest) => if trim(head(segment, '=')) == seq!['q'] {
            weight(trim(head(rest, '=')))
        } else {
            None
        },
        None => None,
    }
}

/// The weight of an entry whose text behind the tag is `parameters`: that of
/// the first parameter where it states one; zero where the parameter is
/// written as a weight and its value is no number; else the full weight.
pub open spec fn stated_quality(parameters: Option<Seq<char>>) -> u16 {
    match parameters {
        Some(rest) => match quality_of(head(rest, ';')) {
            Some(q) => q,
            None => if names_weight(head(rest, ';')) {
                0
            } else {
                FULL
            },
        },
        None => FULL,
    }
}

/// The preference that `entry` states, where its tag is well formed.
pub open spec fn entry_of(entry: Seq<char>) -> Option<Entry> {
    match canonical_tag(trim(head(entry, ';'))) {
        Some(tag) => Some((tag, stated_quality(tail(entry, ';')))),
        None => None,
    }
}

/// What one piece between commas states: its preference, or nothing where
/// its tag is not well formed.
pub open spec fn stated(piece: Seq<char>) -> Seq<Entry> {
    match entry_of(trim(piece)) {
        Some(e) => seq![e],
        None => Seq::empty(),
    }
}

/// The preferences that `raw` states, in the order in which it states them.
pub open spec fn entries(raw: Seq<char>) -> Seq<Entry>
    decreases raw.len(),
{
    match tail(raw, ',') {
        Some(rest) => stated(head(raw, ',')) + entries(rest),
        None => stated(head(raw, ',')),
    }
}

/// The tag of one piece between commas, as it is written.
pub open spec fn written_tag(piece: Seq<char>) -> Seq<char> {
    trim(head(trim(piece), ';'))
}

/// The tags of `raw` that are well formed, as they are written, in order.
pub open spec fn written_tags(raw: Seq<char>) -> Seq<Seq<char>>
    decreases raw.len(),
{
    let first = if canonical_tag(written_tag(head(raw, ','))) is Some {
        seq![written_tag(head(raw, ','))]
    } else {
        Seq::empty()
    };
    match tail(raw, ',') {
        Some(rest) => first + written_tags(rest),
        None => first,
    }
}

/// An entry written as a tag, `;`, and a parameter of a name, `=`, and a
/// value.
pub open spec fn written_entry(tag: Seq<char>, name: Seq<char>, value: Seq<char>) -> Seq<char> {
    tag + seq![';'] + (name + seq!['='] + value)
}

/// The languages that `raw` asks for, best first.
pub open spec fn ranked(raw: Seq<char>) -> Seq<Seq<char>> {
    languages(rank(entries(raw)))
}

/// How `v[lo..hi]` reads as a parameter: whether it is written as a weight,
/// and the weight that it states.
fn parameter_in(v: &Vec<char>, lo: usize, hi: usize) -> (r: (bool, Option<u16>))
    requires
        lo <= hi <= v.len(),
    ensures
        r.0 == names_weight(v@.subrange(lo as int, hi as int)),
        r.1 == quality_of(v@.subrange(lo as int, hi as int)),
        r.1 matches Some(q) ==> q <= FULL,
{
    let ghost segment = v@.subrange(lo as int, hi as int);
    let eq: usize = find_in(v, lo, hi, '=');
    let (a, b) = trim_bounds(v, lo, eq);
    proof {
        assert(head(segment, '=') == v@.subrange(lo as int, eq as int));
    }
    if !(b - a == 1 && v[a] == 'q') {
        proof {
            if v@.subrange(a as int, b as int) == seq!['q'] {
                assert(seq!['q'].len() == 1);
                assert(v@.subrange(a as int, b as int)[0] == 'q');
            }
        }
        return (false, None);
    }
    assert(v@.subrange(a as int, b as int) == seq!['q']);
    if eq == hi {
        return (false, None);
    }
    let end: usize = find_in(v, eq + 1, hi, '=');
    let (c, d) = trim_bounds(v, eq + 1, end);
    proof {
        let rest = v@.subrange(eq + 1, hi as int);
        assert(tail(segment, '=') == Some(rest));
        assert(head(rest, '=') == v@.subrange(eq + 1, end as int));
    }
    (true, weight_in(v, c, d))
}

/// The preference that `v[lo..hi]` states, where its tag is well formed.
/// `value` is the string whose characters `v` holds.
fn language_in(value: &str, v: &Vec<char>, lo: usize, hi: usize) -> (r: Option<(LocaleId, u16)>)
    requires
        v@ == value@,
        lo <= hi <= v.len(),
    ensures
        match r {
            Some((id, q)) => entry_of(v@.subrange(lo as int, hi as int)) == Some((id@, q)) && q
                <= FULL,
            None => entry_of(v@.subrange(lo as int, hi as int)) is None,
        },
        r is Some ==> hi - lo >= 2,
{
    let ghost entry = v@.subrange(lo as int, hi as int);
    let semi: usize = find_in(v, lo, hi, ';');
    let (a, b) = trim_bounds(v, lo, semi);
    proof {
        assert(head(entry, ';') == v@.subrange(lo as int, semi as int));
    }
    let quality: u16 = if semi < hi {
        let end: usize = find_in(v, semi + 1, hi, ';');
        proof {
            let rest = v@.subrange(semi + 1, hi as int);
            assert(tail(entry, ';') == Some(rest));
            assert(head(rest, ';') == v@.subrange(semi + 1, end as int));
        }
        match parameter_in(v, semi + 1, end) {
            (_, Some(q)) => q,
            (true, None) => 0,
            (false, None) => FULL,
        }
    } else {
        FULL
    };
    let tag: &str = value.substring_char(a, b);
    match LocaleId::parse(tag) {
        Ok(id) => Some((id, quality)),
        Err(_) => None,
    }
}

/// Reads one parameter of an entry as a weight, in thousandths.
///
/// The parameter is a name, `=`, and a value, with any white space around
/// each (what follows a second `=` is ignored). The result is `None` where
/// the name is not `q`, where no `=` follows it, and where the value is no
/// decimal number. Else it is the value, limited to the range from zero to
/// one and counted in thousandths.
pub fn parse_quality(value: &str) -> (r: Option<u16>)
    ensures
        r == quality_of(value@),
        r matches Some(q) ==> q <= FULL,
{
    let v = to_chars(value);
    assert(v@.subrange(0, v.len() as int) == v@);
    parameter_in(&v, 0, v.len()).1
}

/// Reads one entry: a language tag, and the weight that its first parameter
/// states. An entry without a parameter, or whose first parameter is not
/// written as a weight, has the full weight; one whose weight is no number
/// has the weight zero. The result is `None` where the tag is not well
/// formed.
pub fn parse_language(value: &str) -> (r: Option<(LocaleId, u16)>)
    ensures
        match r {
            Some((id, q)) => entry_of(value@) == Some((id@, q)) && q <= FULL,
            None => entry_of(value@) is None,
        },
{
    let v = to_chars(value);
    assert(v@.subrange(0, v.len() as int) == v@);
    language_in(value, &v, 0, v.len())
}

/// Ranks the languages that a client prefers.
///
/// `value` holds entries separated by commas. Each is read as
/// `parse_language` reads it; those whose tag is not well formed are left
/// out. The result holds the languages of the others, heaviest first, and
/// those of one weight in the order of `value`.
pub fn parse_accept_languages(value: &str) -> (list: LanguageArray)
    ensures
        list@ == ranked(value@),
{
    let v = to_chars(value);
    let n: usize = v.len();
    let mut list = LanguageArray::new();
    let mut order: Vec<u16> = Vec::new();
    let ghost mut seen: Seq<Entry> = Seq::empty();
    let mut pos: usize = 0;
    proof {
        assert(v@.skip(0) == v@);
        assert(languages(rank(seen)) == Seq::<Seq<char>>::empty());
        assert(weights(rank(seen)) == Seq::<u16>::empty());
    }
    loop
        invariant_except_break
            pos <= n,
            entries(v@) == seen + entries(v@.skip(pos as int)),
            seen.len() <= pos,
        invariant
            v@ == value@,
            n == v.len(),
            list@ == languages(rank(seen)),
            order@ == weights(rank(seen)),
        ensures
            entries(v@) == seen,
        decreases n - pos,
    {
        let end: usize = find_in(&v, pos, n, ',');
        let (a, b) = trim_bounds(&v, pos, end);
        let ghost rest = v@.skip(pos as int);
        let ghost before = seen;
        proof {
            assert(v@.subrange(pos as int, n as int) == rest);
            assert(head(rest, ',') == v@.subrange(pos as int, end as int));
        }
        match language_in(value, &v, a, b) {
            Some((id, q)) => {
                let at: usize = place_of(&order, q);
                proof {
                    seen = seen.push((id@, q));
                    assert(seen.drop_last() == before);
                    lemma_insert_entry(rank(before), at as int, (id@, q));
                    assert(order@.len() == rank(before).len());
                    assert(list@.len() == rank(before).len());
                    lemma_rank_len(before);
                }
                order.insert(at, q);
                list.insert(at, id);
            },
            None => {},
        }
        proof {
            let first = stated(head(rest, ','));
            assert(seen == before + first);
            if end < n {
                assert(tail(rest, ',') == Some(v@.skip(end + 1)));
                assert(before + (first + entries(v@.skip(end + 1))) == (before + first) + entries(
                    v@.skip(end + 1),
                ));
            } else {
                assert(tail(rest, ',') is None);
            }
        }
        if end < n {
            pos = end + 1;
        } else {
            break ;
        }
    }
    list
}

/// An entry without a parameter has the full weight.
pub proof fn lemma_unweighted_entry(entry: Seq<char>)
    requires
        free_of(entry, ';'),
    ensures
        entry_of(entry) == match canonical_tag(trim(entry)) {
            Some(tag) => Some((tag, FULL)),
            None => None,
        },
{
    lemma_find_absent(entry, ';');
}

/// What two texts joined by a comma state is what the first states, then
/// what the second states.
pub proof fn lemma_entries_join(x: Seq<char>, y: Seq<char>)
    ensures
        entries(x + seq![','] + y) == entries(x) + entries(y),
    decreases x.len(),
{
    let whole = x + seq![','] + y;
    match tail(x, ',') {
        Some(rest) => {
            let first = head(x, ',');
            lemma_head_tail(x, ',');
            assert(whole == first + seq![','] + (rest + seq![','] + y));
            lemma_cut(first, ',', rest + seq![','] + y);
            lemma_entries_join(rest, y);
            assert(stated(first) + (entries(rest) + entries(y)) == (stated(first) + entries(rest))
                + entries(y));
        },
        None => {
            lemma_head_tail(x, ',');
            lemma_cut(x, ',', y);
        },
    }
}

/// An entry whose tag is not well formed changes nothing: the others are
/// read as if it were not there.
pub proof fn lemma_malformed_entry_dropped(before: Seq<char>, bad: Seq<char>, after: Seq<char>)
    requires
        free_of(bad, ','),
        entry_of(trim(bad)) is None,
    ensures
        entries(before + seq![','] + bad + seq![','] + after) == entries(
            before + seq![','] + after,
        ),
        ranked(before + seq![','] + bad + seq![','] + after) == ranked(
            before + seq![','] + after,
        ),
        entries(bad + seq![','] + after) == entries(after),
        entries(before + seq![','] + bad) == entries(before),
{
    lemma_find_absent(bad, ',');
    assert(entries(bad) == Seq::<Entry>::empty());
    lemma_entries_join(before, after);
    lemma_entries_join(before, bad);
    lemma_entries_join(bad, after);
    lemma_entries_join(before + seq![','] + bad, after);
    assert(entries(before) + Seq::<Entry>::empty() == entries(before));
    assert(Seq::<Entry>::empty() + entries(after) == entries(after));
}

/// Pieces put together with a comma between each two.
pub open spec fn joined(pieces: Seq<Seq<char>>) -> Seq<char>
    decreases pieces.len(),
{
    if pieces.len() == 0 {
        Seq::empty()
    } else if pieces.len() == 1 {
        pieces[0]
    } else {
        pieces[0] + seq![','] + joined(pieces.drop_first())
    }
}

/// A list of pieces states what the pieces state, one after another: so two
/// lists whose pieces state the same, each for each, state the same, and
/// give the same ranking.
pub proof fn lemma_same_pieces(a: Seq<Seq<char>>, b: Seq<Seq<char>>)
    requires
        a.len() == b.len(),
        a.len() >= 1,
        forall|i: int| 0 <= i < a.len() ==> free_of(#[trigger] a[i], ','),
        forall|i: int| 0 <= i < b.len() ==> free_of(#[trigger] b[i], ','),
        forall|i: int| 0 <= i < a.len() ==> stated(#[trigger] a[i]) == stated(b[i]),
    ensures
        entries(joined(a)) == entries(joined(b)),
        ranked(joined(a)) == ranked(joined(b)),
    decreases a.len(),
{
    assert(stated(a[0]) == stated(b[0]));
    if a.len() == 1 {
        lemma_find_absent(a[0], ',');
        lemma_find_absent(b[0], ',');
    } else {
        let ra = a.drop_first();
        let rb = b.drop_first();
        assert forall|i: int| 0 <= i < ra.len() implies free_of(#[trigger] ra[i], ',') by {
            assert(ra[i] == a[i + 1]);
        }
        assert forall|i: int| 0 <= i < rb.len() implies free_of(#[trigger] rb[i], ',') by {
            assert(rb[i] == b[i + 1]);
        }
        assert forall|i: int| 0 <= i < ra.len() implies stated(#[trigger] ra[i]) == stated(
            rb[i],
        ) by {
            assert(ra[i] == a[i + 1]);
            assert(rb[i] == b[i + 1]);
        }
        lemma_same_pieces(ra, rb);
        lemma_cut(a[0], ',', joined(ra));
        lemma_cut(b[0], ',', joined(rb));
    }
}

/// White space around a piece between commas changes nothing.
pub proof fn lemma_white_space_around_entry(left: Seq<char>, piece: Seq<char>, right: Seq<char>)
    requires
        all_white(left),
        all_white(right),
    ensures
        stated(left + piece + right) == stated(piece),
{
    lemma_trim_padded(left, piece, right);
}

/// White space around the tag, around the `;`, around the name of the
/// parameter, around the `=` and around the value changes nothing.
pub proof fn lemma_white_space_tolerated(
    tag: Seq<char>,
    name: Seq<char>,
    value: Seq<char>,
    pads: Seq<Seq<char>>,
)
    requires
        pads.len() == 6,
        forall|k: int| 0 <= k < 6 ==> all_white(#[trigger] pads[k]),
        free_of(tag, ';'),
        free_of(name, ';'),
        free_of(name, '='),
        free_of(value, ';'),
        free_of(value, '='),
    ensures
        entry_of(
            written_entry(
                pads[0] + tag + pads[1],
                pads[2] + name + pads[3],
                pads[4] + value + pads[5],
            ),
        ) == entry_of(written_entry(tag, name, value)),
        entry_of(pads[0] + tag + pads[1]) == entry_of(tag),
{
    let t = pads[0] + tag + pads[1];
    let n = pads[2] + name + pads[3];
    let v = pads[4] + value + pads[5];
    assert forall|k: int| 0 <= k < 6 implies free_of(#[trigger] pads[k], ';') && free_of(
        pads[k],
        '=',
    ) by {
        lemma_white_is_no_separator(pads[k]);
    }
    lemma_free_of_concat(pads[0], tag, ';');
    lemma_free_of_concat(pads[0] + tag, pads[1], ';');
    lemma_free_of_concat(pads[2], name, ';');
    lemma_free_of_concat(pads[2] + name, pads[3], ';');
    lemma_free_of_concat(pads[2], name, '=');
    lemma_free_of_concat(pads[2] + name, pads[3], '=');
    lemma_free_of_concat(pads[4], value, ';');
    lemma_free_of_concat(pads[4] + value, pads[5], ';');
    lemma_free_of_concat(pads[4], value, '=');
    lemma_free_of_concat(pads[4] + value, pads[5], '=');
    lemma_trim_padded(pads[0], tag, pads[1]);
    lemma_trim_padded(pads[2], name, pads[3]);
    lemma_trim_padded(pads[4], value, pads[5]);
    lemma_parameter(n, v);
    lemma_parameter(name, value);
    lemma_cut(t, ';', n + seq!['='] + v);
    lemma_cut(tag, ';', name + seq!['='] + value);
    lemma_find_absent(t, ';');
    lemma_find_absent(tag, ';');
}

/// How a parameter written as a name, `=`, and a value is read, where
/// neither holds a `;` or a `=`.
proof fn lemma_parameter(name: Seq<char>, value: Seq<char>)
    requires
        free_of(name, ';'),
        free_of(name, '='),
        free_of(value, ';'),
        free_of(value, '='),
    ensures
        head(name + seq!['='] + value, ';') == name + seq!['='] + value,
        names_weight(name + seq!['='] + value) == (trim(name) == seq!['q']),
        quality_of(name + seq!['='] + value) == if trim(name) != seq!['q'] {
            None
        } else {
            weight(trim(value))
        },
{
    let p = name + seq!['='] + value;
    assert(free_of(seq!['='], ';'));
    lemma_free_of_concat(name, seq!['='], ';');
    lemma_free_of_concat(name + seq!['='], value, ';');
    lemma_find_absent(p, ';');
    lemma_cut(name, '=', value);
    lemma_find_absent(value, '=');
}

/// Where every well-formed tag is written in its canonical form, the
/// languages that are read are the tags as they are written.
pub proof fn lemma_canonical_tags_kept(raw: Seq<char>)
    requires
        forall|i: int|
            0 <= i < written_tags(raw).len() ==> canonical_tag(#[trigger] written_tags(raw)[i])
                == Some(written_tags(raw)[i]),
    ensures
        languages(entries(raw)) == written_tags(raw),
    decreases raw.len(),
{
    let piece = head(raw, ',');
    let tag = written_tag(piece);
    let first = if canonical_tag(tag) is Some {
        seq![tag]
    } else {
        Seq::<Seq<char>>::empty()
    };
    if canonical_tag(tag) is Some {
        assert(written_tags(raw)[0] == tag);
    }
    assert(languages(stated(piece)) == first);
    match tail(raw, ',') {
        Some(rest) => {
            assert forall|i: int| 0 <= i < written_tags(rest).len() implies canonical_tag(
                #[trigger] written_tags(rest)[i],
            ) == Some(written_tags(rest)[i]) by {
                assert(written_tags(rest)[i] == written_tags(raw)[first.len() + i]);
            }
            lemma_canonical_tags_kept(rest);
            assert(languages(stated(piece) + entries(rest)) == languages(stated(piece))
                + languages(entries(rest)));
        },
        None => {},
    }
}

/// White space behind a parameter changes nothing of how it reads.
proof fn lemma_parameter_padded(t: Seq<char>, pad: Seq<char>)
    requires
        all_white(pad),
    ensures
        quality_of(t + pad) == quality_of(t),
        names_weight(t + pad) == names_weight(t),
{
    let none = Seq::<char>::empty();
    lemma_white_is_no_separator(pad);
    lemma_find_absent(pad, '=');
    lemma_find_append(t, pad, '=');
    if find(t, '=') < t.len() {
        let k = find(t, '=') as int;
        assert((t + pad).take(k) == t.take(k));
        let u = t.skip(k + 1);
        assert((t + pad).skip(k + 1) == u + pad);
        lemma_find_append(u, pad, '=');
        if find(u, '=') < u.len() {
            assert((u + pad).take(find(u, '=') as int) == u.take(find(u, '=') as int));
        } else {
            assert((u + pad).take((u + pad).len() as int) == u + pad);
            assert(u.take(u.len() as int) == u);
            assert(none + u + pad == u + pad);
            lemma_trim_padded(none, u, pad);
        }
    } else {
        assert((t + pad).take((t + pad).len() as int) == t + pad);
        assert(t.take(t.len() as int) == t);
        assert(none + t + pad == t + pad);
        lemma_trim_padded(none, t, pad);
    }
}

/// White space behind the parameters changes nothing of the weight.
proof fn lemma_quality_padded(t: Seq<char>, pad: Seq<char>)
    requires
        all_white(pad),
    ensures
        stated_quality(Some(t + pad)) == stated_quality(Some(t)),
{
    lemma_white_is_no_separator(pad);
    lemma_find_absent(pad, ';');
    lemma_find_append(t, pad, ';');
    if find(t, ';') < t.len() {
        assert((t + pad).take(find(t, ';') as int) == t.take(find(t, ';') as int));
    } else {
        assert((t + pad).take((t + pad).len() as int) == t + pad);
        assert(t.take(t.len() as int) == t);
        lemma_parameter_padded(t, pad);
    }
}

/// An entry states the same with the white space around it and without.
pub proof fn lemma_entry_trim(x: Seq<char>)
    ensures
        entry_of(trim(x)) == entry_of(x),
        stated(x) == stated(trim(x)),
{
    let none = Seq::<char>::empty();
    let pads = lemma_trim_parts(x);
    let left = pads.0;
    let right = pads.1;
    let y = trim(x);
    lemma_trim_idempotent(x);
    lemma_white_is_no_separator(left);
    lemma_white_is_no_separator(right);
    lemma_find_absent(left, ';');
    lemma_find_absent(right, ';');
    assert(x == left + (y + right));
    lemma_find_append(left, y + right, ';');
    lemma_find_append(y, right, ';');
    if find(y, ';') < y.len() {
        let k = find(y, ';') as int;
        assert(x.take(left.len() + k) == left + y.take(k) + none);
        lemma_trim_padded(left, y.take(k), none);
        assert(x.skip(left.len() + k + 1) == y.skip(k + 1) + right);
        lemma_quality_padded(y.skip(k + 1), right);
    } else {
        assert(x.take(x.len() as int) == x);
        assert(y.take(y.len() as int) == y);
    }
}

/// A piece as it is written: a tag alone, or a tag with a parameter of a
/// name and a value.
pub open spec fn piece(tag: Seq<char>, parameter: Option<(Seq<char>, Seq<char>)>) -> Seq<char> {
    match parameter {
        Some((name, value)) => written_entry(tag, name, value),
        None => tag,
    }
}

/// The piece with white space put around its parts: `pads[0]` and `pads[1]`
/// around the tag, and where it has a parameter `pads[2]` and `pads[3]`
/// around the name, `pads[4]` and `pads[5]` around the value.
pub open spec fn spaced(
    tag: Seq<char>,
    parameter: Option<(Seq<char>, Seq<char>)>,
    pads: Seq<Seq<char>>,
) -> Seq<char> {
    match parameter {
        Some((name, value)) => written_entry(
            pads[0] + tag + pads[1],
            pads[2] + name + pads[3],
            pads[4] + value + pads[5],
        ),
        None => pads[0] + tag + pads[1],
    }
}

/// Whether the parts of a piece hold no separator that would cut them, and
/// the pads are white space.
pub open spec fn well_spaced(
    tag: Seq<char>,
    parameter: Option<(Seq<char>, Seq<char>)>,
    pads: Seq<Seq<char>>,
) -> bool {
    &&& pads.len() == 6
    &&& forall|k: int| 0 <= k < 6 ==> all_white(#[trigger] pads[k])
    &&& free_of(tag, ',')
    &&& free_of(tag, ';')
    &&& parameter matches Some((name, value)) ==> {
        &&& free_of(name, ',')
        &&& free_of(name, ';')
        &&& free_of(name, '=')
        &&& free_of(value, ',')
        &&& free_of(value, ';')
        &&& free_of(value, '=')
    }
}

/// White space around the parts of a piece changes nothing of what the
/// piece states, and puts no comma into it.
pub proof fn lemma_spaced_piece(
    tag: Seq<char>,
    parameter: Option<(Seq<char>, Seq<char>)>,
    pads: Seq<Seq<char>>,
)
    requires
        well_spaced(tag, parameter, pads),
    ensures
        stated(spaced(tag, parameter, pads)) == stated(piece(tag, parameter)),
        free_of(spaced(tag, parameter, pads), ','),
        free_of(piece(tag, parameter), ','),
{
    assert forall|k: int| 0 <= k < 6 implies free_of(#[trigger] pads[k], ',') by {
        lemma_white_is_no_separator(pads[k]);
    }
    lemma_entry_trim(spaced(tag, parameter, pads));
    lemma_entry_trim(piece(tag, parameter));
    lemma_free_of_concat(pads[0], tag, ',');
    lemma_free_of_concat(pads[0] + tag, pads[1], ',');
    match parameter {
        Some((name, value)) => {
            lemma_white_space_tolerated(tag, name, value, pads);
            assert(free_of(seq![';'], ','));
            assert(free_of(seq!['='], ','));
            lemma_free_of_concat(pads[2], name, ',');
            lemma_free_of_concat(pads[2] + name, pads[3], ',');
            lemma_free_of_concat(pads[4], value, ',');
            lemma_free_of_concat(pads[4] + value, pads[5], ',');
            lemma_free_of_concat(pads[2] + name + pads[3], seq!['='], ',');
            lemma_free_of_concat(pads[2] + name + pads[3] + seq!['='], pads[4] + value + pads[5], ',');
            lemma_free_of_concat(pads[0] + tag + pads[1], seq![';'], ',');
            lemma_free_of_concat(
                pads[0] + tag + pads[1] + seq![';'],
                pads[2] + name + pads[3] + seq!['='] + (pads[4] + value + pads[5]),
                ',',
            );
            lemma_free_of_concat(name, seq!['='], ',');
            lemma_free_of_concat(name + seq!['='], value, ',');
            lemma_free_of_concat(tag, seq![';'], ',');
            lemma_free_of_concat(tag + seq![';'], name + seq!['='] + value, ',');
        },
        None => {
            lemma_trim_padded(pads[0], tag, pads[1]);
            lemma_find_absent(tag, ';');
            assert(free_of(pads[1], ';')) by {
                lemma_white_is_no_separator(pads[1]);
            }
            assert(free_of(pads[0], ';')) by {
                lemma_white_is_no_separator(pads[0]);
            }
            lemma_free_of_concat(pads[0], tag, ';');
            lemma_free_of_concat(pads[0] + tag, pads[1], ';');
            lemma_find_absent(pads[0] + tag + pads[1], ';');
        },
    }
}

/// White space at the start and the end of a list of preferences, and
/// around its commas, its `;` and its `=`, changes nothing: the list that
/// is written with it gives the ranking of the list that is written
/// without.
pub proof fn lemma_spaced_list(
    tags: Seq<Seq<char>>,
    parameters: Seq<Option<(Seq<char>, Seq<char>)>>,
    pads: Seq<Seq<Seq<char>>>,
)
    requires
        tags.len() >= 1,
        parameters.len() == tags.len(),
        pads.len() == tags.len(),
        forall|i: int| 0 <= i < tags.len() ==> well_spaced(tags[i], parameters[i], #[trigger] pads[i]),
    ensures
        ranked(joined(Seq::new(tags.len(), |i: int| spaced(tags[i], parameters[i], pads[i]))))
            == ranked(joined(Seq::new(tags.len(), |i: int| piece(tags[i], parameters[i])))),
{
    let a = Seq::new(tags.len(), |i: int| spaced(tags[i], parameters[i], pads[i]));
    let b = Seq::new(tags.len(), |i: int| piece(tags[i], parameters[i]));
    assert forall|i: int| 0 <= i < a.len() implies free_of(#[trigger] a[i], ',') && free_of(
        b[i],
        ',',
    ) && stated(a[i]) == stated(b[i]) by {
        assert(well_spaced(tags[i], parameters[i], pads[i]));
        lemma_spaced_piece(tags[i], parameters[i], pads[i]);
    }
    assert forall|i: int| 0 <= i < b.len() implies free_of(#[trigger] b[i], ',') by {
        assert(free_of(a[i], ','));
    }
    lemma_same_pieces(a, b);
}

/// The pieces of `raw`: what stands between its commas.
pub open spec fn pieces_of(raw: Seq<char>) -> Seq<Seq<char>>
    decreases raw.len(),
{
    match tail(raw, ',') {
        Some(rest) => seq![head(raw, ',')] + pieces_of(rest),
        None => seq![head(raw, ',')],
    }
}

/// Every text is its pieces with commas between them, and no piece holds a
/// comma.
pub proof fn lemma_pieces(raw: Seq<char>)
    ensures
        pieces_of(raw).len() >= 1,
        joined(pieces_of(raw)) == raw,
        forall|i: int| 0 <= i < pieces_of(raw).len() ==> free_of(#[trigger] pieces_of(raw)[i], ','),
    decreases raw.len(),
{
    lemma_head_tail(raw, ',');
    match tail(raw, ',') {
        Some(rest) => {
            lemma_pieces(rest);
            let all = pieces_of(raw);
            assert(all.drop_first() == pieces_of(rest));
            assert(all[0] == head(raw, ','));
            assert forall|i: int| 0 <= i < all.len() implies free_of(#[trigger] all[i], ',') by {
                if i > 0 {
                    assert(all[i] == pieces_of(rest)[i - 1]);
                }
            }
        },
        None => {},
    }
}

/// Two texts of any shape give the same ranking where they have as many
/// pieces and their pieces state the same, each for each.
pub proof fn lemma_same_reading(a: Seq<char>, b: Seq<char>)
    requires
        pieces_of(a).len() == pieces_of(b).len(),
        forall|i: int|
            0 <= i < pieces_of(a).len() ==> stated(#[trigger] pieces_of(a)[i]) == stated(
                pieces_of(b)[i],
            ),
    ensures
        entries(a) == entries(b),
        ranked(a) == ranked(b),
{
    lemma_pieces(a);
    lemma_pieces(b);
    lemma_same_pieces(pieces_of(a), pieces_of(b));
}

/// White space before a parameter changes nothing of how it reads.
proof fn lemma_parameter_led(pad: Seq<char>, seg: Seq<char>)
    requires
        all_white(pad),
    ensures
        quality_of(pad + seg) == quality_of(seg),
        names_weight(pad + seg) == names_weight(seg),
{
    let none = Seq::<char>::empty();
    lemma_white_is_no_separator(pad);
    lemma_head_append(pad, seg, '=');
    assert(pad + head(seg, '=') + none == pad + head(seg, '='));
    lemma_trim_padded(pad, head(seg, '='), none);
}

/// How an entry with parameters reads: its tag is what stands before the
/// first `;`, and its weight is that of what stands behind it up to the
/// next `;`. What follows a second `;` is not read.
pub proof fn lemma_entry_parts(tag: Seq<char>, parameter: Seq<char>, more: Seq<char>)
    requires
        free_of(tag, ';'),
        free_of(parameter, ';'),
    ensures
        entry_of(tag + seq![';'] + parameter) == match canonical_tag(trim(tag)) {
            Some(t) => Some((t, stated_quality(Some(parameter)))),
            None => None,
        },
        entry_of(tag + seq![';'] + (parameter + seq![';'] + more)) == entry_of(
            tag + seq![';'] + parameter,
        ),
{
    lemma_cut(tag, ';', parameter);
    lemma_cut(tag, ';', parameter + seq![';'] + more);
    lemma_cut(parameter, ';', more);
    lemma_find_absent(parameter, ';');
}

/// White space before and behind the first `;` of an entry changes nothing.
pub proof fn lemma_space_around_semicolon(
    tag: Seq<char>,
    before: Seq<char>,
    behind: Seq<char>,
    rest: Seq<char>,
)
    requires
        free_of(tag, ';'),
        all_white(before),
        all_white(behind),
    ensures
        entry_of(tag + before + seq![';'] + (behind + rest)) == entry_of(tag + seq![';'] + rest),
{
    let none = Seq::<char>::empty();
    lemma_white_is_no_separator(before);
    lemma_white_is_no_separator(behind);
    lemma_free_of_concat(tag, before, ';');
    lemma_cut(tag + before, ';', behind + rest);
    lemma_cut(tag, ';', rest);
    assert(none + tag + before == tag + before);
    lemma_trim_padded(none, tag, before);
    lemma_head_append(behind, rest, ';');
    lemma_parameter_led(behind, head(rest, ';'));
}

/// White space before and behind the `=` of the first parameter of an entry
/// changes nothing.
pub proof fn lemma_space_around_equals(
    tag: Seq<char>,
    name: Seq<char>,
    before: Seq<char>,
    behind: Seq<char>,
    value: Seq<char>,
)
    requires
        free_of(tag, ';'),
        free_of(name, ';'),
        free_of(name, '='),
        all_white(before),
        all_white(behind),
    ensures
        entry_of(tag + seq![';'] + (name + before + seq!['='] + (behind + value))) == entry_of(
            tag + seq![';'] + (name + seq!['='] + value),
        ),
{
    let none = Seq::<char>::empty();
    lemma_white_is_no_separator(before);
    lemma_white_is_no_separator(behind);
    let spaced = name + before + seq!['='] + (behind + value);
    let plain = name + seq!['='] + value;
    lemma_cut(tag, ';', spaced);
    lemma_cut(tag, ';', plain);
    // the parameter ends at the first `;`, which stands in the value if anywhere
    assert(free_of(seq!['='], ';'));
    lemma_free_of_concat(name, before, ';');
    lemma_free_of_concat(name + before, seq!['='], ';');
    lemma_free_of_concat(name + before + seq!['='], behind, ';');
    lemma_free_of_concat(name, seq!['='], ';');
    assert(spaced == (name + before + seq!['='] + behind) + value);
    lemma_head_append(name + before + seq!['='] + behind, value, ';');
    lemma_head_append(name + seq!['='], value, ';');
    let cut = head(value, ';');
    assert(head(spaced, ';') == (name + before) + seq!['='] + (behind + cut));
    assert(head(plain, ';') == name + seq!['='] + cut);
    // both parameters read alike
    lemma_free_of_concat(name, before, '=');
    lemma_cut(name + before, '=', behind + cut);
    lemma_cut(name, '=', cut);
    assert(none + name + before == name + before);
    lemma_trim_padded(none, name, before);
    lemma_head_append(behind, cut, '=');
    assert(behind + head(cut, '=') + none == behind + head(cut, '='));
    lemma_trim_padded(behind, head(cut, '='), none);
}

} // verus!
