//! Laws of the ranking step: reindexing keeps every actor's weight, and
//! ranking what is already ranked changes nothing.

use vstd::prelude::*;
use crate::utils::ranking::{
    column_points, is_ranking, is_square, lemma_ranking_unique, lemma_ranking_without_last,
    lemma_reordered_without_last, ranks_before, reindexed, reordered, row_points, weight, weights,
};
use crate::utils::stats::OutcomeStats;

verus! {

/// The positions `0..n` in their own order.
pub open spec fn identity(n: nat) -> Seq<int> {
    Seq::new(n, |k: int| k)
}

/// The sum of the terms.
pub open spec fn total(terms: Seq<nat>) -> nat
    decreases terms.len(),
{
    if terms.len() == 0 {
        0
    } else {
        total(terms.drop_last()) + terms.last()
    }
}

/// A term put in anywhere adds itself to the sum.
pub proof fn lemma_total_insert(terms: Seq<nat>, p: int, x: nat)
    requires
        0 <= p <= terms.len(),
    ensures
        total(terms.insert(p, x)) == total(terms) + x,
    decreases terms.len(),
{
    let longer = terms.insert(p, x);
    if p == terms.len() {
        assert(longer.drop_last() =~= terms);
    } else {
        assert(longer.drop_last() =~= terms.drop_last().insert(p, x));
        assert(longer.last() == terms.last());
        lemma_total_insert(terms.drop_last(), p, x);
    }
}

/// The sum does not depend on the order of the terms.
pub proof fn lemma_total_reordered(w: Seq<nat>, order: Seq<int>, terms: Seq<nat>)
    requires
        is_ranking(w, order),
        terms.len() == w.len(),
    ensures
        total(reordered(terms, order)) == total(terms),
    decreases w.len(),
{
    if w.len() == 0 {
        assert(reordered(terms, order) =~= terms);
    } else {
        let p = lemma_ranking_without_last(w, order);
        let fewer = order.remove(p);
        lemma_total_reordered(w.drop_last(), fewer, terms.drop_last());
        lemma_reordered_without_last(w, order, terms, p);
        lemma_total_insert(reordered(terms.drop_last(), fewer), p, terms.last());
    }
}

/// The points of actor `i` as row actor, cell by cell.
pub open spec fn row_terms(m: Seq<Seq<OutcomeStats>>, i: int) -> Seq<nat> {
    Seq::new(m.len(), |j: int| 2 * m[i][j].spec_one_wins() + m[i][j].spec_draws())
}

/// The points of actor `i` as column actor, cell by cell.
pub open spec fn column_terms(m: Seq<Seq<OutcomeStats>>, i: int) -> Seq<nat> {
    Seq::new(m.len(), |k: int| 2 * m[k][i].spec_two_wins() + m[k][i].spec_draws())
}

/// The points over the first cells of a row or column are the sum of their
/// terms.
pub proof fn lemma_points_are_totals(m: Seq<Seq<OutcomeStats>>, i: int, upto: nat)
    requires
        upto <= m.len(),
    ensures
        row_points(m, i, upto) == total(row_terms(m, i).take(upto as int)),
        column_points(m, i, upto) == total(column_terms(m, i).take(upto as int)),
    decreases upto,
{
    if upto > 0 {
        lemma_points_are_totals(m, i, (upto - 1) as nat);
        assert(row_terms(m, i).take(upto as int).drop_last() =~= row_terms(m, i).take(upto - 1));
        assert(column_terms(m, i).take(upto as int).drop_last() =~= column_terms(m, i).take(
            upto - 1,
        ));
    }
}

/// An actor keeps its weight when the matrix is reindexed: the weight at a
/// place of the reindexed matrix is the weight of the actor that was moved
/// there.
pub proof fn lemma_reindexed_weight(m: Seq<Seq<OutcomeStats>>, order: Seq<int>, a: int)
    requires
        is_square(m, m.len()),
        is_ranking(weights(m), order),
        0 <= a < m.len(),
    ensures
        weight(reindexed(m, order), a) == weight(m, order[a]),
{
    let n = m.len();
    let ranked = reindexed(m, order);
    let from = order[a];
    lemma_points_are_totals(m, from, n);
    lemma_points_are_totals(ranked, a, n);
    assert(row_terms(m, from).take(n as int) =~= row_terms(m, from));
    assert(column_terms(m, from).take(n as int) =~= column_terms(m, from));
    assert(row_terms(ranked, a).take(n as int) =~= row_terms(ranked, a));
    assert(column_terms(ranked, a).take(n as int) =~= column_terms(ranked, a));
    assert(row_terms(ranked, a) =~= reordered(row_terms(m, from), order));
    assert(column_terms(ranked, a) =~= reordered(column_terms(m, from), order));
    lemma_total_reordered(weights(m), order, row_terms(m, from));
    lemma_total_reordered(weights(m), order, column_terms(m, from));
}

/// Idempotence: in a matrix that is reindexed by its ranking the actors
/// already stand in ranked order, so ranking it again moves nobody: the
/// second ranking is the identity, and names and matrix stay as the first
/// ranking left them.
pub proof fn lemma_ranking_idempotent<T>(
    m: Seq<Seq<OutcomeStats>>,
    names: Seq<T>,
    order: Seq<int>,
    again: Seq<int>,
)
    requires
        is_square(m, m.len()),
        names.len() == m.len(),
        is_ranking(weights(m), order),
        is_ranking(weights(reindexed(m, order)), again),
    ensures
        again == identity(m.len()),
        reindexed(reindexed(m, order), again) == reindexed(m, order),
        reordered(reordered(names, order), again) == reordered(names, order),
{
    let n = m.len();
    let ranked = reindexed(m, order);
    let w = weights(m);
    let w2 = weights(ranked);
    assert forall|a: int| 0 <= a < n implies #[trigger] w2[a] == w[order[a]] by {
        lemma_reindexed_weight(m, order, a);
    }
    assert forall|a: int, b: int| 0 <= a < b < n implies ranks_before(
        w2,
        #[trigger] identity(n)[a],
        #[trigger] identity(n)[b],
    ) by {
        assert(ranks_before(w, order[a], order[b]));
    }
    lemma_ranking_unique(w2, again, identity(n));
    assert(reindexed(ranked, again) =~= ranked) by {
        assert forall|a: int| 0 <= a < n implies #[trigger] reindexed(ranked, again)[a]
            =~= ranked[a] by {}
    }
    assert(reordered(reordered(names, order), again) =~= reordered(names, order));
}

} // verus!
