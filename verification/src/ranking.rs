//! Ranking preferences by weight.
//!
//! A ranking holds the entries heaviest first, and entries of one weight in
//! the order in which they came. It is built one entry at a time: each takes
//! its place behind the last entry that is no lighter. That this gives the
//! one order with these two properties is proved below.

use vstd::prelude::*;

verus! {

/// A preference: the canonical text of a language tag, and its weight in
/// thousandths.
pub type Entry = (Seq<char>, u16);

/// Where a weight `q` goes among `weights`, which stand heaviest first:
/// behind the last one that is no lighter.
pub open spec fn place(weights: Seq<u16>, q: u16) -> int
    decreases weights.len(),
{
    if weights.len() == 0 || weights.last() >= q {
        weights.len() as int
    } else {
        place(weights.drop_last(), q)
    }
}

/// The tags of `e`, in order.
pub open spec fn languages(e: Seq<Entry>) -> Seq<Seq<char>> {
    e.map_values(|x: Entry| x.0)
}

/// The weights of `e`, in order.
pub open spec fn weights(e: Seq<Entry>) -> Seq<u16> {
    e.map_values(|x: Entry| x.1)
}

/// `e` ranked: each entry in turn takes its place among those before it.
pub open spec fn rank(e: Seq<Entry>) -> Seq<Entry>
    decreases e.len(),
{
    if e.len() == 0 {
        Seq::empty()
    } else {
        let r = rank(e.drop_last());
        r.insert(place(weights(r), e.last().1), e.last())
    }
}

/// The tags and the weights of a ranking change as the ranking does.
pub proof fn lemma_insert_entry(r: Seq<Entry>, at: int, x: Entry)
    requires
        0 <= at <= r.len(),
    ensures
        languages(r.insert(at, x)) == languages(r).insert(at, x.0),
        weights(r.insert(at, x)) == weights(r).insert(at, x.1),
{
    assert(languages(r.insert(at, x)) =~= languages(r).insert(at, x.0));
    assert(weights(r.insert(at, x)) =~= weights(r).insert(at, x.1));
}

/// `place` is a place in the sequence.
pub proof fn lemma_place(w: Seq<u16>, q: u16)
    ensures
        0 <= place(w, q) <= w.len(),
    decreases w.len(),
{
    if !(w.len() == 0 || w.last() >= q) {
        lemma_place(w.drop_last(), q);
    }
}

/// Where the weight `q` goes among `w`.
pub(crate) fn place_of(w: &Vec<u16>, q: u16) -> (at: usize)
    ensures
        at == place(w@, q),
        at <= w.len(),
{
    let mut at: usize = w.len();
    proof {
        assert(w@.take(at as int) == w@);
    }
    while at > 0 && w[at - 1] < q
        invariant
            at <= w.len(),
            place(w@, q) == place(w@.take(at as int), q),
        decreases at,
    {
        proof {
            assert(w@.take(at as int).drop_last() == w@.take(at - 1));
        }
        at -= 1;
    }
    at
}

/// A ranking holds as many entries as were ranked.
pub proof fn lemma_rank_len(e: Seq<Entry>)
    ensures
        rank(e).len() == e.len(),
    decreases e.len(),
{
    if e.len() > 0 {
        let r = rank(e.drop_last());
        lemma_rank_len(e.drop_last());
        lemma_place(weights(r), e.last().1);
    }
}

/// Whether the weights stand heaviest first.
pub open spec fn descending(w: Seq<u16>) -> bool {
    forall|i: int, j: int| 0 <= i < j < w.len() ==> w[i] >= w[j]
}

/// Whether an entry has the weight `q`.
pub open spec fn has_weight(q: u16) -> spec_fn(Entry) -> bool {
    |x: Entry| x.1 == q
}

/// The entries of `e` that have the weight `q`, in the order of `e`.
pub open spec fn of_weight(e: Seq<Entry>, q: u16) -> Seq<Entry> {
    e.filter(has_weight(q))
}

/// All that stands at `place` or behind it is lighter than `q`; what stands
/// just before it is not.
pub proof fn lemma_place_splits(w: Seq<u16>, q: u16)
    ensures
        forall|i: int| place(w, q) <= i < w.len() ==> w[i] < q,
        place(w, q) > 0 ==> w[place(w, q) - 1] >= q,
    decreases w.len(),
{
    if !(w.len() == 0 || w.last() >= q) {
        let rest = w.drop_last();
        lemma_place_splits(rest, q);
        lemma_place(rest, q);
        assert forall|i: int| place(w, q) <= i < w.len() implies w[i] < q by {
            if i < rest.len() {
                assert(w[i] == rest[i]);
            }
        }
        if place(w, q) > 0 {
            assert(w[place(w, q) - 1] == rest[place(rest, q) - 1]);
        }
    }
}

/// A ranking stands heaviest first: no entry stands behind a lighter one.
pub proof fn lemma_rank_descending(e: Seq<Entry>)
    ensures
        descending(weights(rank(e))),
    decreases e.len(),
{
    if e.len() > 0 {
        let r = rank(e.drop_last());
        let w = weights(r);
        let q = e.last().1;
        let at = place(w, q);
        lemma_rank_descending(e.drop_last());
        lemma_place(w, q);
        lemma_place_splits(w, q);
        lemma_insert_entry(r, at, e.last());
        let after = w.insert(at, q);
        assert forall|i: int, j: int| 0 <= i < j < after.len() implies after[i] >= after[j] by {
            if i < at {
                assert(after[i] == w[i]);
                assert(w[i] >= w[at - 1]);
            } else if i > at {
                assert(after[i] == w[i - 1]);
            }
            if j < at {
                assert(after[j] == w[j]);
            } else if j > at {
                assert(after[j] == w[j - 1]);
            }
        }
    }
}

/// A ranking keeps the order of the input among entries of one weight, and
/// neither drops an entry nor adds one: for every weight, it holds the
/// entries of that weight exactly as the input does.
pub proof fn lemma_rank_stable(e: Seq<Entry>, q: u16)
    ensures
        of_weight(rank(e), q) == of_weight(e, q),
    decreases e.len(),
{
    reveal(Seq::filter);
    let pred = has_weight(q);
    if e.len() > 0 {
        let r = rank(e.drop_last());
        let x = e.last();
        let at = place(weights(r), x.1);
        lemma_rank_stable(e.drop_last(), q);
        lemma_place(weights(r), x.1);
        lemma_place_splits(weights(r), x.1);
        let front = r.subrange(0, at);
        let back = r.subrange(at, r.len() as int);
        assert(r == front + back);
        assert(rank(e) == front.push(x) + back);
        Seq::filter_distributes_over_add(front, back, pred);
        Seq::filter_distributes_over_add(front.push(x), back, pred);
        assert(front.push(x).drop_last() == front);
        assert(front.push(x).last() == x);
        assert(r.filter(pred) == e.drop_last().filter(pred));
        if pred(x) {
            assert(front.push(x).filter(pred) == front.filter(pred).push(x));
            lemma_filter_none(back, pred);
            assert forall|k: int| 0 <= k < back.len() implies !pred(#[trigger] back[k]) by {
                assert(weights(r)[at + k] == back[k].1);
            }
            assert(back.filter(pred) == Seq::<Entry>::empty());
            assert(front.filter(pred).push(x) + Seq::<Entry>::empty() == front.filter(pred).push(
                x,
            ));
            assert(front.filter(pred) + Seq::<Entry>::empty() == front.filter(pred));
            assert(rank(e).filter(pred) == r.filter(pred).push(x));
            assert(e.filter(pred) == e.drop_last().filter(pred).push(x));
        } else {
            assert(front.push(x).filter(pred) == front.filter(pred));
            assert(rank(e).filter(pred) == r.filter(pred));
            assert(e.filter(pred) == e.drop_last().filter(pred));
        }
    }
}

/// A filter keeps nothing of a sequence in which nothing passes.
proof fn lemma_filter_none(s: Seq<Entry>, pred: spec_fn(Entry) -> bool)
    ensures
        (forall|k: int| 0 <= k < s.len() ==> !pred(#[trigger] s[k])) ==> s.filter(pred)
            == Seq::<Entry>::empty(),
    decreases s.len(),
{
    reveal(Seq::filter);
    if s.len() > 0 {
        lemma_filter_none(s.drop_last(), pred);
        if forall|k: int| 0 <= k < s.len() ==> !pred(#[trigger] s[k]) {
            assert forall|k: int| 0 <= k < s.drop_last().len() implies !pred(
                #[trigger] s.drop_last()[k],
            ) by {
                assert(s.drop_last()[k] == s[k]);
            }
            assert(!pred(s[s.len() - 1]));
        }
    }
}

/// Of two entries of different weight, the heavier stands first in the
/// ranking, wherever the two stood in the input.
pub proof fn lemma_heavier_stands_first(e: Seq<Entry>, i: int, j: int)
    requires
        0 <= i < e.len(),
        0 <= j < e.len(),
        e[i].1 > e[j].1,
    ensures
        exists|a: int, b: int|
            0 <= a < b < rank(e).len() && #[trigger] rank(e)[a] == e[i] && #[trigger] rank(e)[b]
                == e[j],
{
    let r = rank(e);
    lemma_rank_stable(e, e[i].1);
    lemma_rank_stable(e, e[j].1);
    lemma_rank_descending(e);
    e.lemma_filter_contains(has_weight(e[i].1), i);
    e.lemma_filter_contains(has_weight(e[j].1), j);
    r.lemma_filter_contains_rev(has_weight(e[i].1), e[i]);
    r.lemma_filter_contains_rev(has_weight(e[j].1), e[j]);
    let a = choose|a: int| 0 <= a < r.len() && r[a] == e[i];
    let b = choose|b: int| 0 <= b < r.len() && r[b] == e[j];
    assert(weights(r)[a] == e[i].1);
    assert(weights(r)[b] == e[j].1);
    assert(a < b);
}

/// Entries that stand heaviest first already are ranked as they stand.
pub proof fn lemma_rank_of_ranked(e: Seq<Entry>)
    requires
        descending(weights(e)),
    ensures
        rank(e) == e,
    decreases e.len(),
{
    if e.len() > 0 {
        let before = e.drop_last();
        assert forall|i: int, j: int| 0 <= i < j < weights(before).len() implies weights(
            before,
        )[i] >= weights(before)[j] by {
            assert(weights(before)[i] == weights(e)[i]);
            assert(weights(before)[j] == weights(e)[j]);
        }
        lemma_rank_of_ranked(before);
        if before.len() > 0 {
            assert(weights(before).last() == weights(e)[e.len() - 2]);
            assert(weights(e)[e.len() - 1] == e.last().1);
        }
        assert(place(weights(before), e.last().1) == before.len());
        assert(before.insert(before.len() as int, e.last()) == e);
    }
}

/// Where some entry of `r` has the weight `q`.
proof fn lemma_weight_present(r: Seq<Entry>, q: u16) -> (k: int)
    requires
        of_weight(r, q).len() > 0,
    ensures
        0 <= k < r.len(),
        r[k].1 == q,
{
    let x = of_weight(r, q)[0];
    r.lemma_filter_pred(has_weight(q), 0);
    assert(of_weight(r, q).contains(x));
    r.lemma_filter_contains_rev(has_weight(q), x);
    choose|k: int| 0 <= k < r.len() && r[k] == x
}

/// Two sequences that stand heaviest first and hold, for every weight, the
/// same entries in the same order are one sequence.
proof fn lemma_same_ranking(r: Seq<Entry>, s: Seq<Entry>)
    requires
        descending(weights(r)),
        descending(weights(s)),
        forall|q: u16| of_weight(r, q) == of_weight(s, q),
    ensures
        r == s,
    decreases r.len(),
{
    reveal(Seq::filter);
    if r.len() == 0 {
        if s.len() > 0 {
            s.lemma_filter_contains(has_weight(s[0].1), 0);
            assert(of_weight(r, s[0].1).len() == 0);
        }
        assert(r == s);
    } else {
        let x = r.last();
        r.lemma_filter_contains(has_weight(x.1), r.len() - 1);
        assert(of_weight(s, x.1).len() > 0);
        let k = lemma_weight_present(s, x.1);
        let y = s.last();
        s.lemma_filter_contains(has_weight(y.1), s.len() - 1);
        assert(of_weight(r, y.1).len() > 0);
        let l = lemma_weight_present(r, y.1);
        assert(weights(s)[k] == x.1);
        assert(weights(s)[s.len() - 1] == y.1);
        assert(weights(r)[l] == y.1);
        assert(weights(r)[r.len() - 1] == x.1);
        assert(x.1 == y.1);
        assert(of_weight(r, x.1) == of_weight(r.drop_last(), x.1).push(x));
        assert(of_weight(s, x.1) == of_weight(s.drop_last(), x.1).push(y));
        assert(of_weight(r, x.1).last() == x);
        assert(x == y);
        let before_r = r.drop_last();
        let before_s = s.drop_last();
        assert forall|q: u16| of_weight(before_r, q) == of_weight(before_s, q) by {
            assert(of_weight(r, q) == of_weight(s, q));
            if q == x.1 {
                assert(of_weight(before_r, q) == of_weight(r, q).drop_last());
                assert(of_weight(before_s, q) == of_weight(s, q).drop_last());
            }
        }
        assert forall|i: int, j: int| 0 <= i < j < weights(before_r).len() implies weights(
            before_r,
        )[i] >= weights(before_r)[j] by {
            assert(weights(before_r)[i] == weights(r)[i]);
            assert(weights(before_r)[j] == weights(r)[j]);
        }
        assert forall|i: int, j: int| 0 <= i < j < weights(before_s).len() implies weights(
            before_s,
        )[i] >= weights(before_s)[j] by {
            assert(weights(before_s)[i] == weights(s)[i]);
            assert(weights(before_s)[j] == weights(s)[j]);
        }
        lemma_same_ranking(before_r, before_s);
        assert(r == before_r.push(x));
        assert(s == before_s.push(y));
    }
}

/// The ranking is the only order of the entries that stands heaviest first
/// and keeps, for every weight, the entries of that weight as the input has
/// them.
pub proof fn lemma_ranking_unique(e: Seq<Entry>, r: Seq<Entry>)
    requires
        descending(weights(r)),
        forall|q: u16| of_weight(r, q) == of_weight(e, q),
    ensures
        r == rank(e),
{
    lemma_rank_descending(e);
    assert forall|q: u16| of_weight(r, q) == of_weight(rank(e), q) by {
        lemma_rank_stable(e, q);
    }
    lemma_same_ranking(r, rank(e));
}

} // verus!
