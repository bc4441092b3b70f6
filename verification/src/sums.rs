//! Sums over sequences.

use vstd::prelude::*;

verus! {

/// The sum of the numbers of `s`.
pub open spec fn total(s: Seq<int>) -> int
    decreases s.len(),
{
    if s.len() == 0 {
        0
    } else {
        total(s.drop_last()) + s.last()
    }
}

/// The sum of `f` over the items of `s`.
pub open spec fn tally<A>(s: Seq<A>, f: spec_fn(A) -> int) -> int {
    total(Seq::new(s.len(), |i: int| f(s[i])))
}

/// The sum of two sequences, one after the other, is the sum of their
/// sums.
pub proof fn lemma_total_concat(a: Seq<int>, b: Seq<int>)
    ensures
        total(a + b) == total(a) + total(b),
    decreases b.len(),
{
    if b.len() == 0 {
    } else {
        assert((a + b).drop_last() =~= a + b.drop_last());
        lemma_total_concat(a, b.drop_last());
    }
}

/// A sum is the sum without one of its terms, and that term.
pub proof fn lemma_total_remove(s: Seq<int>, i: int)
    requires
        0 <= i < s.len(),
    ensures
        total(s) == total(s.remove(i)) + s[i],
{
    let head = s.take(i);
    let tail = s.skip(i + 1);
    assert(s =~= head + seq![s[i]] + tail);
    lemma_total_concat(head, seq![s[i]]);
    lemma_total_concat(head + seq![s[i]], tail);
    lemma_total_concat(head, tail);
    assert(total(seq![s[i]]) == s[i]) by {
        reveal_with_fuel(total, 2);
    }
}

/// The sum over one item is its term.
pub proof fn lemma_tally_one<A>(a: A, f: spec_fn(A) -> int)
    ensures
        tally(seq![a], f) == f(a),
{
    reveal_with_fuel(total, 2);
}

/// The sum over two sequences, one after the other, is the sum of the sums
/// over each.
pub proof fn lemma_tally_concat<A>(a: Seq<A>, b: Seq<A>, f: spec_fn(A) -> int)
    ensures
        tally(a + b, f) == tally(a, f) + tally(b, f),
{
    let wa = Seq::new(a.len(), |i: int| f(a[i]));
    let wb = Seq::new(b.len(), |i: int| f(b[i]));
    assert(Seq::new((a + b).len(), |i: int| f((a + b)[i])) =~= wa + wb);
    lemma_total_concat(wa, wb);
}

/// One item more adds its term.
pub proof fn lemma_tally_push<A>(s: Seq<A>, a: A, f: spec_fn(A) -> int)
    ensures
        tally(s.push(a), f) == tally(s, f) + f(a),
{
    assert(s.push(a) =~= s + seq![a]);
    lemma_tally_concat(s, seq![a], f);
    lemma_tally_one(a, f);
}

/// One item less takes its term off.
pub proof fn lemma_tally_remove<A>(s: Seq<A>, i: int, f: spec_fn(A) -> int)
    requires
        0 <= i < s.len(),
    ensures
        tally(s, f) == tally(s.remove(i), f) + f(s[i]),
{
    let w = Seq::new(s.len(), |k: int| f(s[k]));
    assert(Seq::new(s.remove(i).len(), |k: int| f(s.remove(i)[k])) =~= w.remove(i));
    lemma_total_remove(w, i);
}

/// An item put in anywhere adds its term.
pub proof fn lemma_tally_insert<A>(s: Seq<A>, i: int, a: A, f: spec_fn(A) -> int)
    requires
        0 <= i <= s.len(),
    ensures
        tally(s.insert(i, a), f) == tally(s, f) + f(a),
{
    assert(s.insert(i, a).remove(i) =~= s);
    lemma_tally_remove(s.insert(i, a), i, f);
}

/// An item put in place of another changes the sum by the difference of
/// their terms.
pub proof fn lemma_tally_update<A>(s: Seq<A>, i: int, a: A, f: spec_fn(A) -> int)
    requires
        0 <= i < s.len(),
    ensures
        tally(s.update(i, a), f) == tally(s, f) - f(s[i]) + f(a),
{
    assert(s.update(i, a).remove(i) =~= s.remove(i));
    lemma_tally_remove(s.update(i, a), i, f);
    lemma_tally_remove(s, i, f);
}

/// Two functions that agree on every item give the same sum.
pub proof fn lemma_tally_same<A>(s: Seq<A>, f: spec_fn(A) -> int, g: spec_fn(A) -> int)
    requires
        forall|i: int| 0 <= i < s.len() ==> f(#[trigger] s[i]) == g(s[i]),
    ensures
        tally(s, f) == tally(s, g),
{
    assert(Seq::new(s.len(), |i: int| f(s[i])) =~= Seq::new(s.len(), |i: int| g(s[i])));
}

/// A sum of terms that are at least `low` each is at least `low` times their
/// number.
pub proof fn lemma_tally_at_least<A>(s: Seq<A>, f: spec_fn(A) -> int, low: int)
    requires
        forall|i: int| 0 <= i < s.len() ==> f(#[trigger] s[i]) >= low,
    ensures
        tally(s, f) >= low * s.len(),
    decreases s.len(),
{
    if s.len() > 0 {
        let rest = s.drop_last();
        lemma_tally_at_least(rest, f, low);
        assert(s =~= rest.push(s.last()));
        lemma_tally_push(rest, s.last(), f);
        assert(low * s.len() == low * rest.len() + low) by (nonlinear_arith)
            requires
                s.len() == rest.len() + 1,
        ;
    } else {
        assert(low * s.len() == 0) by (nonlinear_arith)
            requires
                s.len() == 0,
        ;
    }
}

/// A sum of terms that are `high` at most each is at most `high` times
/// their number.
pub proof fn lemma_tally_at_most<A>(s: Seq<A>, f: spec_fn(A) -> int, high: int)
    requires
        forall|i: int| 0 <= i < s.len() ==> f(#[trigger] s[i]) <= high,
    ensures
        tally(s, f) <= high * s.len(),
    decreases s.len(),
{
    if s.len() > 0 {
        let rest = s.drop_last();
        lemma_tally_at_most(rest, f, high);
        assert(s =~= rest.push(s.last()));
        lemma_tally_push(rest, s.last(), f);
        assert(high * s.len() == high * rest.len() + high) by (nonlinear_arith)
            requires
                s.len() == rest.len() + 1,
        ;
    } else {
        assert(high * s.len() == 0) by (nonlinear_arith)
            requires
                s.len() == 0,
        ;
    }
}

} // verus!
