//! The tournament: every ordered pair of actors, an actor against itself
//! included, plays the same number of matches, and each pair's outcomes are
//! counted in its own cell.

use vstd::prelude::*;
use crate::utils::game::{Contestant, Entrant, Game, PlayError};
use crate::utils::ranking::{
    cells, column_points, is_square, lemma_ranking_exists, ranking, reindexed, reordered,
    row_points, sort_stats_and_names, texts, weight, weights, weights_fit,
};
use crate::utils::runner::{can_end_with, is_fresh, WithPlayers};
use crate::utils::stats::{OutcomeStats, TwoPlayerOutcome};

verus! {

/// Calls to `From::from` from a type to itself, which is also what
/// `Into::into` from a type to itself goes through.
///
/// Trusted: the standard library's `impl<T> From<T> for T` returns its
/// argument unchanged.
pub assume_specification<Same>[ <Same as core::convert::From<Same>>::from ](t: Same) -> (r: Same)
    ensures
        r == t,
;

/// The seats of a match of two: `one` in the first player slot, `two` in the
/// second.
pub open spec fn seated<G: Game>(one: Contestant<G>, two: Contestant<G>) -> Seq<Contestant<G>> {
    seq![one, two]
}

/// A match between a copy of `first`, in the first player slot, and a copy of
/// `second`, in the second, on a game in an initial state can end with
/// `result`.
pub open spec fn match_can_end_with<G: Game + Default>(
    first: Box<dyn Entrant<G>>,
    second: Box<dyn Entrant<G>>,
    result: Result<G::Outcome, PlayError<G>>,
) -> bool {
    exists|start: G, one: Contestant<G>, two: Contestant<G>|
        is_fresh(start) && first.copy_of(one) && second.copy_of(two) && #[trigger] can_end_with(
            start,
            seated(one, two),
            result,
        )
}

/// The outcome may be classified as `class`: this is what the conversion of
/// the game's outcome into `TwoPlayerOutcome` can return for it.
pub open spec fn classified<G: Game>(outcome: G::Outcome, class: TwoPlayerOutcome) -> bool where
    G::Outcome: Into<TwoPlayerOutcome>,
 {
    call_ensures(<G::Outcome as Into<TwoPlayerOutcome>>::into, (outcome,), class)
}

/// A match between copies of `first` and `second` can end with an outcome
/// that counts as `class`.
pub open spec fn match_can_count_as<G: Game + Default>(
    first: Box<dyn Entrant<G>>,
    second: Box<dyn Entrant<G>>,
    class: TwoPlayerOutcome,
) -> bool where G::Outcome: Into<TwoPlayerOutcome> {
    exists|outcome: G::Outcome|
        match_can_end_with::<G>(first, second, Ok(outcome)) && #[trigger] classified::<G>(
            outcome,
            class,
        )
}

/// A cell holds only what matches between copies of `first` and `second` can
/// produce: a counter is above zero only if such a match can end in its
/// class.
pub open spec fn credible<G: Game + Default>(
    cell: OutcomeStats,
    first: Box<dyn Entrant<G>>,
    second: Box<dyn Entrant<G>>,
) -> bool where G::Outcome: Into<TwoPlayerOutcome> {
    &&& cell.spec_one_wins() > 0 ==> match_can_count_as::<G>(
        first,
        second,
        TwoPlayerOutcome::OneWins,
    )
    &&& cell.spec_two_wins() > 0 ==> match_can_count_as::<G>(
        first,
        second,
        TwoPlayerOutcome::TwoWins,
    )
    &&& cell.spec_draws() > 0 ==> match_can_count_as::<G>(first, second, TwoPlayerOutcome::Draw)
}

/// `m` has `n` rows of `n` cells, and every cell counts exactly `game_count`
/// matches.
pub open spec fn counts_every_match(m: Seq<Seq<OutcomeStats>>, n: nat, game_count: nat) -> bool {
    &&& is_square(m, n)
    &&& forall|i: int, j: int|
        0 <= i < n && 0 <= j < n ==> (#[trigger] m[i][j]).spec_games() == game_count
}

/// `m` is the statistics of a finished tournament of `players` with
/// `game_count` matches per ordered pair: one row and one column for each
/// actor, every cell counting exactly `game_count` matches, and cell
/// `(i, j)` only what matches between a copy of actor `i` in the first slot
/// and a copy of actor `j` in the second can produce.
pub open spec fn is_tournament_result<G: Game + Default>(
    m: Seq<Seq<OutcomeStats>>,
    players: Seq<Box<dyn Entrant<G>>>,
    game_count: nat,
) -> bool where G::Outcome: Into<TwoPlayerOutcome> {
    &&& counts_every_match(m, players.len(), game_count)
    &&& forall|i: int, j: int|
        0 <= i < players.len() && 0 <= j < players.len() ==> credible::<G>(
            #[trigger] m[i][j],
            players[i],
            players[j],
        )
}

/// A match of the tournament of `players` can end with `failure`.
pub open spec fn tournament_can_fail_with<G: Game + Default>(
    players: Seq<Box<dyn Entrant<G>>>,
    failure: PlayError<G>,
) -> bool {
    exists|i: int, j: int|
        0 <= i < players.len() && 0 <= j < players.len() && #[trigger] match_can_end_with::<G>(
            players[i],
            players[j],
            Err(failure),
        )
}

impl<G: Game + Default> WithPlayers<G> where G::Outcome: Into<TwoPlayerOutcome> {
    /// Plays `game_count` matches for every ordered pair of `players`, the
    /// first of the pair in the first player slot and the second in the
    /// second, each match on a fresh game with fresh copies of both actors.
    /// Cell `(i, j)` of the result counts the outcomes of actor `i` against
    /// actor `j`.
    ///
    /// The first rejected action ends the tournament with that failure; the
    /// statistics gathered so far are dropped.
    pub fn play_matrix(players: &Vec<Box<dyn Entrant<G>>>, game_count: usize) -> (r: Result<
        Vec<Vec<OutcomeStats>>,
        PlayError<G>,
    >)
        requires
            G::spec_player_count() == 2,
        ensures
            match r {
                Ok(matrix) => is_tournament_result::<G>(
                    cells(matrix@),
                    players@,
                    game_count as nat,
                ),
                Err(failure) => tournament_can_fail_with::<G>(players@, failure),
            },
            players@.len() == 0 || game_count == 0 ==> r is Ok,
    {
        let n = players.len();
        let mut matrix: Vec<Vec<OutcomeStats>> = Vec::new();
        let mut i: usize = 0;
        while i < n
            invariant
                i <= n,
                n == players@.len(),
                G::spec_player_count() == 2,
                matrix@.len() == i,
                forall|a: int| 0 <= a < i ==> (#[trigger] matrix@[a])@.len() == n,
                forall|a: int, b: int|
                    0 <= a < i && 0 <= b < n ==> (#[trigger] matrix@[a]@[b]).spec_games()
                        == game_count,
                forall|a: int, b: int|
                    0 <= a < i && 0 <= b < n ==> credible::<G>(
                        #[trigger] matrix@[a]@[b],
                        players@[a],
                        players@[b],
                    ),
            decreases n - i,
        {
            let mut row: Vec<OutcomeStats> = Vec::new();
            let mut j: usize = 0;
            while j < n
                invariant
                    j <= n,
                    i < n,
                    n == players@.len(),
                    G::spec_player_count() == 2,
                    row@.len() == j,
                    forall|b: int| 0 <= b < j ==> (#[trigger] row@[b]).spec_games() == game_count,
                    forall|b: int|
                        0 <= b < j ==> credible::<G>(
                            #[trigger] row@[b],
                            players@[i as int],
                            players@[b],
                        ),
                decreases n - j,
            {
                let mut cell = OutcomeStats::new();
                let mut played: usize = 0;
                while played < game_count
                    invariant
                        played <= game_count,
                        i < n,
                        j < n,
                        n == players@.len(),
                        G::spec_player_count() == 2,
                        cell.spec_games() == played,
                        credible::<G>(cell, players@[i as int], players@[j as int]),
                    decreases game_count - played,
                {
                    let first = players[i].contestant();
                    let second = players[j].contestant();
                    let ghost one = first;
                    let ghost two = second;
                    let seated = WithPlayers::<G>::new(vec![first, second]);
                    let ghost start = seated.game();
                    assert(seated.contestants() =~= self::seated(one, two));
                    match seated.play() {
                        Ok(outcome) => {
                            let ghost ended = outcome;
                            let class: TwoPlayerOutcome = outcome.into();
                            proof {
                                assert(can_end_with(
                                    start,
                                    self::seated(one, two),
                                    Ok::<G::Outcome, PlayError<G>>(ended),
                                ));
                                assert(match_can_end_with::<G>(
                                    players@[i as int],
                                    players@[j as int],
                                    Ok(ended),
                                ));
                                assert(classified::<G>(ended, class));
                                assert(match_can_count_as::<G>(
                                    players@[i as int],
                                    players@[j as int],
                                    class,
                                ));
                            }
                            cell.record(class);
                        },
                        Err(failure) => {
                            proof {
                                assert(can_end_with(
                                    start,
                                    self::seated(one, two),
                                    Err::<G::Outcome, PlayError<G>>(failure),
                                ));
                                assert(match_can_end_with::<G>(
                                    players@[i as int],
                                    players@[j as int],
                                    Err(failure),
                                ));
                            }
                            return Err(failure);
                        },
                    }
                    played += 1;
                }
                row.push(cell);
                j += 1;
            }
            matrix.push(row);
            i += 1;
        }
        proof {
            let m = cells(matrix@);
            assert forall|a: int, b: int| 0 <= a < n && 0 <= b < n implies (#[trigger] m[a][b])
                == matrix@[a]@[b] by {}
        }
        Ok(matrix)
    }
}

/// The names of the actors entered, in list order.
pub open spec fn entered_names<G: Game>(players: Seq<Box<dyn Entrant<G>>>) -> Seq<Seq<char>> {
    Seq::new(players.len(), |i: int| players[i].spec_entry_name())
}

/// The greatest weight that an actor can reach in a tournament of `n` actors
/// with `game_count` matches per ordered pair: two points in every match of
/// its pairings with the others, first-listed and second-listed, and two
/// points for every match against itself.
pub open spec fn max_weight(n: nat, game_count: nat) -> nat {
    if n == 0 {
        0
    } else {
        (2 * game_count * (2 * n - 1)) as nat
    }
}

/// Whether the greatest weight that an actor can reach in a tournament of
/// `n` actors with `game_count` matches per ordered pair fits in a `usize`.
pub fn max_weight_fits(n: usize, game_count: usize) -> (fits: bool)
    ensures
        fits <==> max_weight(n as nat, game_count as nat) <= usize::MAX,
{
    if n == 0 || game_count == 0 {
        assert(max_weight(n as nat, game_count as nat) == 0) by (nonlinear_arith)
            requires
                n == 0 || game_count == 0,
                max_weight(n as nat, game_count as nat) == (if n == 0 {
                    0
                } else {
                    2 * game_count * (2 * n - 1)
                }),
        ;
        return true;
    }
    let pairings = match n.checked_mul(2) {
        Some(twice) => twice - 1,
        None => {
            assert(2 * game_count * (2 * n - 1) > usize::MAX) by (nonlinear_arith)
                requires
                    2 * n > usize::MAX,
                    game_count >= 1,
            ;
            return false;
        },
    };
    let matches = match pairings.checked_mul(game_count) {
        Some(matches) => matches,
        None => {
            assert(2 * game_count * (2 * n - 1) > usize::MAX) by (nonlinear_arith)
                requires
                    (2 * n - 1) * game_count > usize::MAX,
            ;
            return false;
        },
    };
    assert(2 * game_count * (2 * n - 1) == 2 * matches) by (nonlinear_arith)
        requires
            matches == (2 * n - 1) * game_count,
    ;
    matches.checked_mul(2).is_some()
}

/// In a tournament result the first `upto` cells of an actor's row and
/// column together earn it at most four points per match, and only two per
/// match in its own cell.
proof fn lemma_points_bounded(
    m: Seq<Seq<OutcomeStats>>,
    n: nat,
    game_count: nat,
    i: int,
    upto: nat,
)
    requires
        counts_every_match(m, n, game_count),
        0 <= i < n,
        upto <= n,
    ensures
        row_points(m, i, upto) + column_points(m, i, upto) <= 4 * game_count * upto - (if i
            < upto {
            2 * game_count
        } else {
            0
        }),
    decreases upto,
{
    if upto > 0 {
        lemma_points_bounded(m, n, game_count, i, (upto - 1) as nat);
        assert(m[i][upto - 1].spec_games() == game_count);
        assert(m[upto - 1][i].spec_games() == game_count);
        assert(4 * game_count * (upto - 1) + 4 * game_count == 4 * game_count * upto)
            by (nonlinear_arith);
    }
}

/// The weights of a tournament result fit in a `usize` when the greatest
/// weight that an actor can reach does.
pub proof fn lemma_tournament_weights_fit(
    m: Seq<Seq<OutcomeStats>>,
    n: nat,
    game_count: nat,
)
    requires
        counts_every_match(m, n, game_count),
        max_weight(n, game_count) <= usize::MAX,
    ensures
        weights_fit(m),
{
    assert forall|i: int| 0 <= i < m.len() implies weight(m, i) <= usize::MAX by {
        lemma_points_bounded(m, n, game_count, i, n);
        assert(4 * game_count * n - 2 * game_count == 2 * game_count * (2 * n - 1))
            by (nonlinear_arith);
    }
}

/// Reindexing a tournament result by the ranking of its weights gives the
/// tournament result of the actors in ranked order: the cells are the same,
/// each with its pair of actors.
pub proof fn lemma_reindexed_is_tournament_result<G: Game + Default>(
    m: Seq<Seq<OutcomeStats>>,
    players: Seq<Box<dyn Entrant<G>>>,
    game_count: nat,
) where G::Outcome: Into<TwoPlayerOutcome>
    requires
        is_tournament_result::<G>(m, players, game_count),
    ensures
        is_tournament_result::<G>(
            reindexed(m, ranking(weights(m))),
            reordered(players, ranking(weights(m))),
            game_count,
        ),
{
    lemma_ranking_exists(weights(m));
    let n = players.len();
    let order = ranking(weights(m));
    let ranked = reindexed(m, order);
    let moved = reordered(players, order);
    assert forall|i: int, j: int| 0 <= i < n && 0 <= j < n implies (#[trigger] ranked[i][j])
        == m[order[i]][order[j]] by {}
    assert forall|i: int, j: int| 0 <= i < n && 0 <= j < n implies (#[trigger] ranked[i][j])
        .spec_games() == game_count && credible::<G>(ranked[i][j], moved[i], moved[j]) by {
        assert(0 <= order[i] < n && 0 <= order[j] < n);
        assert(m[order[i]][order[j]].spec_games() == game_count);
        assert(credible::<G>(m[order[i]][order[j]], players[order[i]], players[order[j]]));
    }
}

/// `names` and `stats` are the names `entered` and the statistics `m` in
/// ranked order: ascending by weight, equal weights in their order of entry.
pub open spec fn is_ranked(
    entered: Seq<Seq<char>>,
    m: Seq<Seq<OutcomeStats>>,
    names: Seq<Seq<char>>,
    stats: Seq<Seq<OutcomeStats>>,
) -> bool {
    &&& names == reordered(entered, ranking(weights(m)))
    &&& stats == reindexed(m, ranking(weights(m)))
}

/// Runs the tournament of `players` with `game_count` matches per ordered
/// pair and ranks the actors: returns their names by ascending weight, actors
/// of equal weight in their order of entry, with the statistics matrix
/// reindexed to that order.
///
/// The first rejected action ends the whole computation with that failure.
///
/// The weights are machine integers, so the greatest weight that an actor can
/// reach has to fit in one.
pub fn get_sorted_stats_and_names<G: Game + Default>(
    players: &Vec<Box<dyn Entrant<G>>>,
    game_count: usize,
) -> (r: Result<(Vec<String>, Vec<Vec<OutcomeStats>>), PlayError<G>>) where
    G::Outcome: Into<TwoPlayerOutcome>,
    requires
        G::spec_player_count() == 2,
        max_weight(players@.len(), game_count as nat) <= usize::MAX,
    ensures
        match r {
            Ok(ranked) => {
                &&& exists|m: Seq<Seq<OutcomeStats>>| #[trigger]
                    is_tournament_result::<G>(m, players@, game_count as nat) && is_ranked(
                        entered_names(players@),
                        m,
                        texts(ranked.0@),
                        cells(ranked.1@),
                    )
                &&& counts_every_match(cells(ranked.1@), players@.len(), game_count as nat)
                &&& texts(ranked.0@).to_multiset() == entered_names(players@).to_multiset()
            },
            Err(failure) => tournament_can_fail_with::<G>(players@, failure),
        },
        players@.len() == 0 || game_count == 0 ==> r is Ok,
{
    let n = players.len();
    let mut names: Vec<String> = Vec::new();
    let mut i: usize = 0;
    while i < n
        invariant
            i <= n,
            n == players@.len(),
            names@.len() == i,
            forall|k: int| 0 <= k < i ==> (#[trigger] names@[k])@ == players@[k].spec_entry_name(),
        decreases n - i,
    {
        names.push(players[i].entry_name());
        i += 1;
    }
    assert(texts(names@) =~= entered_names(players@));
    let matrix = match WithPlayers::<G>::play_matrix(players, game_count) {
        Ok(matrix) => matrix,
        Err(failure) => {
            return Err(failure);
        },
    };
    proof {
        lemma_tournament_weights_fit(cells(matrix@), n as nat, game_count as nat);
    }
    let ranked = sort_stats_and_names(&names, &matrix);
    proof {
        lemma_reindexed_is_tournament_result::<G>(cells(matrix@), players@, game_count as nat);
    }
    Ok(ranked)
}

} // verus!
