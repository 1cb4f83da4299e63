//! The ranking step: a weight per actor, the actors in ascending order of
//! weight, and the statistics matrix reindexed to that order.
//!
//! Actors are identified by their position in the input list, never by their
//! display name: two actors that share a name keep separate statistics.

use vstd::prelude::*;
use vstd::seq_lib::{to_multiset_build, to_multiset_insert};
use vstd::set_lib::{lemma_int_range, lemma_subset_equality, set_int_range};
use crate::utils::stats::OutcomeStats;

verus! {

/// The cells of a statistics matrix, row by row.
pub open spec fn cells(matrix: Seq<Vec<OutcomeStats>>) -> Seq<Seq<OutcomeStats>> {
    Seq::new(matrix.len(), |i: int| matrix[i]@)
}

/// `m` has `n` rows of `n` cells each.
pub open spec fn is_square(m: Seq<Seq<OutcomeStats>>, n: nat) -> bool {
    &&& m.len() == n
    &&& forall|i: int| 0 <= i < n ==> (#[trigger] m[i]).len() == n
}

/// Points that actor `i` earns as the row actor in the first `upto` cells of
/// its row: two for each win, one for each draw.
pub open spec fn row_points(m: Seq<Seq<OutcomeStats>>, i: int, upto: nat) -> nat
    decreases upto,
{
    if upto == 0 {
        0
    } else {
        let cell = m[i][upto - 1];
        row_points(m, i, (upto - 1) as nat) + 2 * cell.spec_one_wins() + cell.spec_draws()
    }
}

/// Points that actor `i` earns as the column actor in the first `upto` cells
/// of its column: two for each win, one for each draw.
pub open spec fn column_points(m: Seq<Seq<OutcomeStats>>, i: int, upto: nat) -> nat
    decreases upto,
{
    if upto == 0 {
        0
    } else {
        let cell = m[upto - 1][i];
        column_points(m, i, (upto - 1) as nat) + 2 * cell.spec_two_wins() + cell.spec_draws()
    }
}

/// The weight of actor `i`: its points over every cell of its row and every
/// cell of its column. A win is worth two points to the winner, a draw one
/// point to each participant; in the cell of an actor against itself the
/// actor is both participants.
pub open spec fn weight(m: Seq<Seq<OutcomeStats>>, i: int) -> nat {
    row_points(m, i, m.len()) + column_points(m, i, m.len())
}

/// The weights of all actors, in matrix order.
pub open spec fn weights(m: Seq<Seq<OutcomeStats>>) -> Seq<nat> {
    Seq::new(m.len(), |i: int| weight(m, i))
}

/// Actor `a` is ranked before actor `b`: it has the smaller weight, or the
/// same weight and the earlier position.
pub open spec fn ranks_before(w: Seq<nat>, a: int, b: int) -> bool {
    w[a] < w[b] || (w[a] == w[b] && a < b)
}

/// `order` lists the positions `0..w.len()` by ascending weight, equal
/// weights in ascending order of position.
pub open spec fn is_ranking(w: Seq<nat>, order: Seq<int>) -> bool {
    &&& order.len() == w.len()
    &&& forall|k: int| 0 <= k < order.len() ==> 0 <= #[trigger] order[k] < w.len()
    &&& forall|a: int, b: int|
        0 <= a < b < order.len() ==> ranks_before(w, #[trigger] order[a], #[trigger] order[b])
}

/// The items of `xs` in the order that `order` gives.
pub open spec fn reordered<T>(xs: Seq<T>, order: Seq<int>) -> Seq<T> {
    Seq::new(order.len(), |k: int| xs[order[k]])
}

/// The matrix with rows and columns both taken in the order that `order`
/// gives.
pub open spec fn reindexed(m: Seq<Seq<OutcomeStats>>, order: Seq<int>) -> Seq<Seq<OutcomeStats>> {
    Seq::new(order.len(), |a: int| Seq::new(order.len(), |b: int| m[order[a]][order[b]]))
}

/// A vector of machine integers as a sequence of naturals.
pub open spec fn nats(v: Seq<usize>) -> Seq<nat> {
    Seq::new(v.len(), |i: int| v[i] as nat)
}

/// A vector of machine integers as a sequence of integers.
pub open spec fn ints(v: Seq<usize>) -> Seq<int> {
    Seq::new(v.len(), |i: int| v[i] as int)
}

/// Orders the positions of `weights` by ascending weight, keeping positions
/// of equal weight in ascending order.
pub fn ranking_order(weights: &Vec<usize>) -> (order: Vec<usize>)
    ensures
        is_ranking(nats(weights@), ints(order@)),
{
    let n = weights.len();
    let ghost w = nats(weights@);
    let mut order: Vec<usize> = Vec::new();
    let mut i: usize = 0;
    while i < n
        invariant
            i <= n,
            n == weights.len(),
            w == nats(weights@),
            order.len() == i,
            forall|k: int| 0 <= k < i ==> #[trigger] order[k] < i,
            forall|a: int, b: int|
                0 <= a < b < i ==> ranks_before(w, #[trigger] order[a] as int, #[trigger] order[b] as int),
        decreases n - i,
    {
        let mut p: usize = i;
        while p > 0 && weights[order[p - 1]] > weights[i]
            invariant
                p <= i,
                i < n,
                n == weights.len(),
                w == nats(weights@),
                order.len() == i,
                forall|k: int| 0 <= k < i ==> #[trigger] order[k] < i,
                forall|k: int| p <= k < i ==> w[#[trigger] order[k] as int] > w[i as int],
            decreases p,
        {
            p -= 1;
        }
        let ghost before = order@;
        order.insert(p, i);
        proof {
            assert forall|a: int, b: int| 0 <= a < b < i + 1 implies ranks_before(
                w,
                #[trigger] order[a] as int,
                #[trigger] order[b] as int,
            ) by {
                if b < p {
                    assert(order[a] == before[a] && order[b] == before[b]);
                } else if b == p {
                    assert(order[a] == before[a]);
                    if a < p - 1 {
                        assert(ranks_before(w, before[a] as int, before[p - 1] as int));
                    }
                } else if a < p {
                    assert(order[a] == before[a] && order[b] == before[b - 1]);
                    if a < b - 1 {
                        assert(ranks_before(w, before[a] as int, before[b - 1] as int));
                    }
                } else if a == p {
                    assert(order[b] == before[b - 1]);
                } else {
                    assert(order[a] == before[a - 1] && order[b] == before[b - 1]);
                }
            }
            assert forall|k: int| 0 <= k < i + 1 implies #[trigger] order[k] < i + 1 by {
                if k < p {
                    assert(order[k] == before[k]);
                } else if k > p {
                    assert(order[k] == before[k - 1]);
                }
            }
        }
        i += 1;
    }
    order
}

/// A ranking names every position: each of `0..w.len()` stands somewhere in
/// `order`.
pub proof fn lemma_ranking_covers(w: Seq<nat>, order: Seq<int>, x: int) -> (k: int)
    requires
        is_ranking(w, order),
        0 <= x < w.len(),
    ensures
        0 <= k < order.len(),
        order[k] == x,
{
    let n = w.len() as int;
    assert(order.no_duplicates()) by {
        assert forall|i: int, j: int|
            0 <= i < order.len() && 0 <= j < order.len() && i != j implies order[i] != order[j] by {
            if i < j {
                assert(ranks_before(w, order[i], order[j]));
            } else {
                assert(ranks_before(w, order[j], order[i]));
            }
        }
    }
    order.unique_seq_to_set();
    lemma_int_range(0, n);
    assert(order.to_set().subset_of(set_int_range(0, n))) by {
        assert forall|v: int| order.to_set().contains(v) implies set_int_range(0, n).contains(v) by {
            let i = choose|i: int| 0 <= i < order.len() && order[i] == v;
            assert(0 <= order[i] < n);
        }
    }
    vstd::seq_lib::seq_to_set_is_finite(order);
    lemma_subset_equality(order.to_set(), set_int_range(0, n));
    assert(set_int_range(0, n).contains(x));
    assert(order.to_set().contains(x));
    choose|k: int| 0 <= k < order.len() && order[k] == x
}

/// The ranking is determined by the weights: two rankings of the same
/// weights are the same sequence, so ranking the same input again gives the
/// same order.
pub proof fn lemma_ranking_unique(w: Seq<nat>, first: Seq<int>, second: Seq<int>)
    requires
        is_ranking(w, first),
        is_ranking(w, second),
    ensures
        first == second,
{
    assert forall|k: int| 0 <= k < first.len() implies first[k] == second[k] by {
        lemma_ranking_agrees_upto(w, first, second, k);
    }
    assert(first =~= second);
}

proof fn lemma_ranking_agrees_upto(w: Seq<nat>, first: Seq<int>, second: Seq<int>, k: int)
    requires
        is_ranking(w, first),
        is_ranking(w, second),
        0 <= k < first.len(),
    ensures
        first[k] == second[k],
    decreases k,
{
    assert forall|j: int| 0 <= j < k implies first[j] == second[j] by {
        lemma_ranking_agrees_upto(w, first, second, j);
    }
    let x = first[k];
    let y = second[k];
    if x != y {
        let kx = lemma_ranking_covers(w, second, x);
        let ky = lemma_ranking_covers(w, first, y);
        // `x` stands after `k` in `second`, and `y` after `k` in `first`.
        if kx < k {
            assert(ranks_before(w, first[kx], first[k]));
        }
        if ky < k {
            assert(ranks_before(w, second[ky], second[k]));
        }
        assert(ranks_before(w, second[k], second[kx]));
        assert(ranks_before(w, first[k], first[ky]));
    }
}

/// The ranking of the given weights.
pub open spec fn ranking(w: Seq<nat>) -> Seq<int> {
    choose|order: Seq<int>| is_ranking(w, order)
}

/// Where the last position goes in a ranking of the positions before it:
/// behind every position of no greater weight, before every position of
/// greater weight.
proof fn lemma_insertion_point(w: Seq<nat>, order: Seq<int>, upto: int) -> (p: int)
    requires
        w.len() > 0,
        is_ranking(w.drop_last(), order),
        0 <= upto <= order.len(),
        forall|k: int| upto <= k < order.len() ==> w[#[trigger] order[k]] > w.last(),
    ensures
        0 <= p <= order.len(),
        forall|k: int| p <= k < order.len() ==> w[#[trigger] order[k]] > w.last(),
        forall|k: int| 0 <= k < p ==> w[#[trigger] order[k]] <= w.last(),
    decreases upto,
{
    if upto == 0 {
        0
    } else if w[order[upto - 1]] > w.last() {
        lemma_insertion_point(w, order, upto - 1)
    } else {
        assert forall|k: int| 0 <= k < upto implies w[#[trigger] order[k]] <= w.last() by {
            if k < upto - 1 {
                assert(ranks_before(w.drop_last(), order[k], order[upto - 1]));
            }
        }
        upto
    }
}

/// Every list of weights has a ranking, and `ranking` is it.
pub proof fn lemma_ranking_exists(w: Seq<nat>)
    ensures
        is_ranking(w, ranking(w)),
    decreases w.len(),
{
    if w.len() == 0 {
        assert(is_ranking(w, Seq::<int>::empty()));
    } else {
        let last = w.len() - 1;
        let fewer = ranking(w.drop_last());
        lemma_ranking_exists(w.drop_last());
        let p = lemma_insertion_point(w, fewer, fewer.len() as int);
        let order = fewer.insert(p, last);
        assert forall|a: int, b: int| 0 <= a < b < order.len() implies ranks_before(
            w,
            #[trigger] order[a],
            #[trigger] order[b],
        ) by {
            if b < p {
                assert(order[a] == fewer[a] && order[b] == fewer[b]);
                assert(ranks_before(w.drop_last(), fewer[a], fewer[b]));
            } else if b == p {
                assert(order[a] == fewer[a]);
            } else if a < p {
                assert(order[a] == fewer[a] && order[b] == fewer[b - 1]);
                if a < b - 1 {
                    assert(ranks_before(w.drop_last(), fewer[a], fewer[b - 1]));
                }
            } else if a == p {
                assert(order[b] == fewer[b - 1]);
            } else {
                assert(order[a] == fewer[a - 1] && order[b] == fewer[b - 1]);
                assert(ranks_before(w.drop_last(), fewer[a - 1], fewer[b - 1]));
            }
        }
        assert forall|k: int| 0 <= k < order.len() implies 0 <= #[trigger] order[k] < w.len() by {
            if k < p {
                assert(order[k] == fewer[k]);
            } else if k > p {
                assert(order[k] == fewer[k - 1]);
            }
        }
        assert(is_ranking(w, order));
    }
}

/// Whatever satisfies `is_ranking` is `ranking`.
pub proof fn lemma_ranking_is(w: Seq<nat>, order: Seq<int>)
    requires
        is_ranking(w, order),
    ensures
        order == ranking(w),
{
    lemma_ranking_exists(w);
    lemma_ranking_unique(w, order, ranking(w));
}

/// Points over a longer stretch of a row or a column are no fewer.
pub proof fn lemma_points_monotone(m: Seq<Seq<OutcomeStats>>, i: int, shorter: nat, longer: nat)
    requires
        shorter <= longer,
    ensures
        row_points(m, i, shorter) <= row_points(m, i, longer),
        column_points(m, i, shorter) <= column_points(m, i, longer),
    decreases longer,
{
    if shorter < longer {
        lemma_points_monotone(m, i, shorter, (longer - 1) as nat);
    }
}

/// Computes the weight of every actor of a square statistics matrix.
pub fn actor_weights(matrix: &Vec<Vec<OutcomeStats>>) -> (w: Vec<usize>)
    requires
        is_square(cells(matrix@), matrix@.len()),
        weights_fit(cells(matrix@)),
    ensures
        nats(w@) == weights(cells(matrix@)),
{
    let n = matrix.len();
    let ghost m = cells(matrix@);
    let mut w: Vec<usize> = Vec::new();
    let mut i: usize = 0;
    while i < n
        invariant
            i <= n,
            n == matrix@.len(),
            m == cells(matrix@),
            is_square(m, n as nat),
            forall|k: int| 0 <= k < n ==> weight(m, k) <= usize::MAX,
            w.len() == i,
            forall|k: int| 0 <= k < i ==> #[trigger] w[k] == weight(m, k),
        decreases n - i,
    {
        let mut total: usize = 0;
        let mut j: usize = 0;
        while j < n
            invariant
                j <= n,
                i < n,
                n == matrix@.len(),
                m == cells(matrix@),
                is_square(m, n as nat),
                weight(m, i as int) <= usize::MAX,
                total == row_points(m, i as int, j as nat) + column_points(m, i as int, j as nat),
            decreases n - j,
        {
            assert(m[i as int].len() == n && m[j as int].len() == n);
            let in_row = &matrix[i][j];
            let in_column = &matrix[j][i];
            proof {
                assert(*in_row == m[i as int][j as int]);
                assert(*in_column == m[j as int][i as int]);
                lemma_points_monotone(m, i as int, (j + 1) as nat, n as nat);
            }
            total = total + 2 * in_row.one_wins() + in_row.draws() + 2 * in_column.two_wins()
                + in_column.draws();
            j += 1;
        }
        w.push(total);
        i += 1;
    }
    assert(nats(w@) =~= weights(m));
    w
}

/// Taking the last position out of a ranking leaves a ranking of the other
/// positions. Returns the place where the last position stood.
pub proof fn lemma_ranking_without_last(w: Seq<nat>, order: Seq<int>) -> (p: int)
    requires
        is_ranking(w, order),
        w.len() > 0,
    ensures
        0 <= p < order.len(),
        order[p] == w.len() - 1,
        is_ranking(w.drop_last(), order.remove(p)),
{
    let last = w.len() - 1;
    let p = lemma_ranking_covers(w, order, last);
    let fewer = order.remove(p);
    assert forall|k: int| 0 <= k < fewer.len() implies 0 <= #[trigger] fewer[k] < last by {
        let from = if k < p { k } else { k + 1 };
        assert(fewer[k] == order[from]);
        if from < p {
            assert(ranks_before(w, order[from], order[p]));
        } else {
            assert(ranks_before(w, order[p], order[from]));
        }
    }
    assert forall|a: int, b: int| 0 <= a < b < fewer.len() implies ranks_before(
        w.drop_last(),
        #[trigger] fewer[a],
        #[trigger] fewer[b],
    ) by {
        let from_a = if a < p { a } else { a + 1 };
        let from_b = if b < p { b } else { b + 1 };
        assert(fewer[a] == order[from_a] && fewer[b] == order[from_b]);
        assert(ranks_before(w, order[from_a], order[from_b]));
    }
    p
}

/// Reordering by a ranking with the last position taken out, and putting the
/// last item back where that position stood, is reordering by the ranking.
pub proof fn lemma_reordered_without_last<T>(w: Seq<nat>, order: Seq<int>, xs: Seq<T>, p: int)
    requires
        is_ranking(w, order),
        xs.len() == w.len(),
        w.len() > 0,
        0 <= p < order.len(),
        order[p] == w.len() - 1,
        is_ranking(w.drop_last(), order.remove(p)),
    ensures
        reordered(xs, order) == reordered(xs.drop_last(), order.remove(p)).insert(p, xs.last()),
{
    let fewer = order.remove(p);
    assert forall|k: int| 0 <= k < fewer.len() implies 0 <= #[trigger] fewer[k] < w.len() - 1 by {}
    assert(reordered(xs, order) =~= reordered(xs.drop_last(), fewer).insert(p, xs.last()));
}

/// Reordering by a ranking neither adds, drops nor duplicates an item: the
/// reordered sequence holds the same items as the given one, each as often.
pub proof fn lemma_reordered_keeps_items<T>(w: Seq<nat>, order: Seq<int>, xs: Seq<T>)
    requires
        is_ranking(w, order),
        xs.len() == w.len(),
    ensures
        reordered(xs, order).to_multiset() == xs.to_multiset(),
    decreases w.len(),
{
    if w.len() == 0 {
        assert(reordered(xs, order) =~= xs);
    } else {
        let p = lemma_ranking_without_last(w, order);
        let fewer = order.remove(p);
        let front = xs.drop_last();
        lemma_reordered_keeps_items(w.drop_last(), fewer, front);
        lemma_reordered_without_last(w, order, xs, p);
        to_multiset_insert(reordered(front, fewer), p, xs.last());
        assert(xs =~= front.push(xs.last()));
        to_multiset_build(front, xs.last());
    }
}

/// The display names as sequences of characters.
pub open spec fn texts(names: Seq<String>) -> Seq<Seq<char>> {
    Seq::new(names.len(), |i: int| names[i]@)
}

/// Every actor's weight fits in a `usize`.
pub open spec fn weights_fit(m: Seq<Seq<OutcomeStats>>) -> bool {
    forall|i: int| 0 <= i < m.len() ==> weight(m, i) <= usize::MAX
}

/// The ranking step on given statistics: returns the names in ascending order
/// of their actors' weights, actors of equal weight in their input order, and
/// the matrix with rows and columns permuted to that order.
///
/// Names are carried along by position, so actors that share a name are still
/// ranked and reported separately.
pub fn sort_stats_and_names(names: &Vec<String>, matrix: &Vec<Vec<OutcomeStats>>) -> (ranked: (
    Vec<String>,
    Vec<Vec<OutcomeStats>>,
))
    requires
        is_square(cells(matrix@), names@.len()),
        weights_fit(cells(matrix@)),
    ensures
        texts(ranked.0@) == reordered(texts(names@), ranking(weights(cells(matrix@)))),
        cells(ranked.1@) == reindexed(cells(matrix@), ranking(weights(cells(matrix@)))),
        texts(ranked.0@).to_multiset() == texts(names@).to_multiset(),
        is_square(cells(ranked.1@), names@.len()),
{
    let n = names.len();
    let ghost m = cells(matrix@);
    let w = actor_weights(matrix);
    let order = ranking_order(&w);
    let ghost by_rank = ints(order@);
    proof {
        lemma_ranking_is(weights(m), by_rank);
        lemma_reordered_keeps_items(weights(m), by_rank, texts(names@));
    }
    let mut ranked_names: Vec<String> = Vec::new();
    let mut ranked_stats: Vec<Vec<OutcomeStats>> = Vec::new();
    let mut a: usize = 0;
    while a < n
        invariant
            a <= n,
            n == names@.len(),
            n == order@.len(),
            m == cells(matrix@),
            is_square(m, n as nat),
            by_rank == ints(order@),
            is_ranking(weights(m), by_rank),
            ranked_names@.len() == a,
            ranked_stats@.len() == a,
            forall|k: int| 0 <= k < a ==> (#[trigger] ranked_names@[k])@ == names@[by_rank[k]]@,
            forall|k: int| 0 <= k < a ==> (#[trigger] ranked_stats@[k])@ == reindexed(m, by_rank)[k],
        decreases n - a,
    {
        let from_row = order[a];
        assert(from_row == by_rank[a as int]);
        let mut row: Vec<OutcomeStats> = Vec::new();
        let mut b: usize = 0;
        while b < n
            invariant
                b <= n,
                a < n,
                n == order@.len(),
                n == matrix@.len(),
                m == cells(matrix@),
                is_square(m, n as nat),
                by_rank == ints(order@),
                is_ranking(weights(m), by_rank),
                from_row == by_rank[a as int],
                row@.len() == b,
                forall|k: int| 0 <= k < b ==> #[trigger] row@[k] == m[from_row as int][by_rank[k]],
            decreases n - b,
        {
            let from_column = order[b];
            assert(from_column == by_rank[b as int]);
            assert(m[from_row as int].len() == n);
            assert(matrix@[from_row as int]@ == m[from_row as int]);
            row.push(matrix[from_row][from_column]);
            b += 1;
        }
        assert(row@ =~= reindexed(m, by_rank)[a as int]);
        ranked_names.push(names[from_row].clone());
        ranked_stats.push(row);
        a += 1;
    }
    assert(texts(ranked_names@) =~= reordered(texts(names@), by_rank));
    assert(cells(ranked_stats@) =~= reindexed(m, by_rank));
    (ranked_names, ranked_stats)
}

} // verus!
