use gaming::utils::ranking::{actor_weights, ranking_order, sort_stats_and_names};
use gaming::utils::tournament::max_weight_fits;
use gaming::utils::{OutcomeStats, TwoPlayerOutcome};

fn cell(one_wins: usize, two_wins: usize, draws: usize) -> OutcomeStats {
    OutcomeStats::from_counts(one_wins, two_wins, draws).unwrap()
}

fn counts(cell: &OutcomeStats) -> (usize, usize, usize) {
    (cell.one_wins(), cell.two_wins(), cell.draws())
}

#[test]
fn new_stats_are_zero() {
    let stats = OutcomeStats::new();
    assert_eq!(counts(&stats), (0, 0, 0));
    assert_eq!(stats.games(), 0);
    assert_eq!(stats, OutcomeStats::default());
}

#[test]
fn record_increments_exactly_one_counter() {
    let mut stats = OutcomeStats::new();
    stats.record(TwoPlayerOutcome::OneWins);
    assert_eq!(counts(&stats), (1, 0, 0));
    stats.record(TwoPlayerOutcome::TwoWins);
    assert_eq!(counts(&stats), (1, 1, 0));
    stats.record(TwoPlayerOutcome::Draw);
    assert_eq!(counts(&stats), (1, 1, 1));
    stats.record(TwoPlayerOutcome::Draw);
    assert_eq!(counts(&stats), (1, 1, 2));
    assert_eq!(stats.games(), 4);
}

#[test]
fn from_counts_refuses_a_sum_that_does_not_fit() {
    assert_eq!(OutcomeStats::from_counts(usize::MAX, 1, 0), None);
    assert_eq!(OutcomeStats::from_counts(usize::MAX - 1, 1, 1), None);
    assert_eq!(OutcomeStats::from_counts(1, usize::MAX, 0), None);
    let full = OutcomeStats::from_counts(usize::MAX - 2, 1, 1).unwrap();
    assert_eq!(full.games(), usize::MAX);
    assert_eq!(counts(&cell(3, 4, 5)), (3, 4, 5));
    assert_eq!(cell(3, 4, 5).games(), 12);
}

#[test]
fn weights_count_wins_twice_and_draws_once() {
    // Row actor earns 2 * one_wins + draws, column actor 2 * two_wins + draws.
    let matrix = vec![
        vec![cell(1, 2, 3), cell(4, 0, 1)],
        vec![cell(0, 5, 2), cell(1, 1, 1)],
    ];
    // Actor 0: row (2 + 3) + (8 + 1) = 14, column (4 + 3) + (10 + 2) = 19.
    // Actor 1: row (0 + 2) + (2 + 1) = 5, column (0 + 1) + (2 + 1) = 4.
    assert_eq!(actor_weights(&matrix), vec![33, 9]);
    assert_eq!(actor_weights(&Vec::new()), Vec::<usize>::new());
    assert_eq!(actor_weights(&vec![vec![cell(0, 0, 10)]]), vec![20]);
    assert_eq!(actor_weights(&vec![vec![cell(3, 0, 0)]]), vec![6]);
    assert_eq!(actor_weights(&vec![vec![cell(0, 3, 0)]]), vec![6]);
}

#[test]
fn ranking_order_is_ascending_and_stable() {
    assert_eq!(ranking_order(&vec![]), Vec::<usize>::new());
    assert_eq!(ranking_order(&vec![7]), vec![0]);
    assert_eq!(ranking_order(&vec![3, 1, 2]), vec![1, 2, 0]);
    assert_eq!(ranking_order(&vec![5, 5, 5]), vec![0, 1, 2]);
    assert_eq!(ranking_order(&vec![2, 1, 2, 1, 0]), vec![4, 1, 3, 0, 2]);
    assert_eq!(ranking_order(&vec![usize::MAX, 0, usize::MAX]), vec![1, 0, 2]);
}

#[test]
fn sort_reorders_names_and_reindexes_the_matrix() {
    let names = vec!["a".to_string(), "b".to_string(), "c".to_string()];
    let matrix = vec![
        vec![cell(0, 0, 1), cell(1, 0, 0), cell(1, 0, 0)],
        vec![cell(0, 1, 0), cell(0, 0, 1), cell(0, 1, 0)],
        vec![cell(0, 1, 0), cell(1, 0, 0), cell(0, 0, 1)],
    ];
    // a beats everyone: 2 + 2 + 2 + 2 + 1 + 1 = 10; b loses everything: 1 + 1 = 2;
    // c beats b and loses to a: 2 + 2 + 1 + 1 = 6.
    assert_eq!(actor_weights(&matrix), vec![10, 2, 6]);
    let (ranked_names, ranked) = sort_stats_and_names(&names, &matrix);
    assert_eq!(ranked_names, vec!["b".to_string(), "c".to_string(), "a".to_string()]);
    let order = [1usize, 2, 0];
    for a in 0..3 {
        for b in 0..3 {
            assert_eq!(ranked[a][b], matrix[order[a]][order[b]]);
        }
    }
    assert_eq!(counts(&ranked[0][2]), (0, 1, 0));
    assert_eq!(counts(&ranked[2][0]), (1, 0, 0));
}

#[test]
fn sort_twice_on_the_same_input_gives_the_same_result() {
    let names = vec!["x".to_string(), "y".to_string(), "z".to_string(), "w".to_string()];
    let matrix = vec![
        vec![cell(0, 0, 2), cell(1, 1, 0), cell(2, 0, 0), cell(0, 2, 0)],
        vec![cell(1, 1, 0), cell(0, 0, 2), cell(0, 1, 1), cell(1, 0, 1)],
        vec![cell(0, 2, 0), cell(1, 0, 1), cell(0, 0, 2), cell(1, 1, 0)],
        vec![cell(2, 0, 0), cell(0, 1, 1), cell(1, 1, 0), cell(0, 0, 2)],
    ];
    let first = sort_stats_and_names(&names, &matrix);
    let second = sort_stats_and_names(&names, &matrix);
    assert_eq!(first, second);
    // Ranking what is already ranked keeps it as it is.
    let again = sort_stats_and_names(&first.0, &first.1);
    assert_eq!(again, first);
}

#[test]
fn sort_keeps_every_name_exactly_once() {
    let names = vec!["p".to_string(), "q".to_string(), "r".to_string()];
    let matrix = vec![
        vec![cell(0, 0, 5), cell(5, 0, 0), cell(0, 5, 0)],
        vec![cell(0, 5, 0), cell(0, 0, 5), cell(5, 0, 0)],
        vec![cell(5, 0, 0), cell(0, 5, 0), cell(0, 0, 5)],
    ];
    // All weights are equal, so the input order stays.
    assert_eq!(actor_weights(&matrix), vec![30, 30, 30]);
    let (ranked_names, ranked) = sort_stats_and_names(&names, &matrix);
    assert_eq!(ranked_names, names);
    assert_eq!(ranked, matrix);
    let mut sorted = ranked_names.clone();
    sorted.sort();
    assert_eq!(sorted, vec!["p".to_string(), "q".to_string(), "r".to_string()]);
}

#[test]
fn sort_keeps_actors_with_the_same_name_apart() {
    let names = vec!["twin".to_string(), "twin".to_string()];
    let matrix = vec![
        vec![cell(0, 0, 1), cell(1, 0, 0)],
        vec![cell(0, 1, 0), cell(0, 0, 1)],
    ];
    // The first twin wins both pairings: weights 2 + 2 + 1 + 1 = 6 and 1 + 1 = 2.
    assert_eq!(actor_weights(&matrix), vec![6, 2]);
    let (ranked_names, ranked) = sort_stats_and_names(&names, &matrix);
    assert_eq!(ranked_names, names);
    assert_eq!(counts(&ranked[0][1]), (0, 1, 0));
    assert_eq!(counts(&ranked[1][0]), (1, 0, 0));
}

#[test]
fn sort_of_nothing_is_nothing() {
    let (ranked_names, ranked) = sort_stats_and_names(&Vec::new(), &Vec::new());
    assert!(ranked_names.is_empty());
    assert!(ranked.is_empty());
}

#[test]
fn max_weight_fits_exactly_up_to_the_greatest_usize() {
    // No actors or no matches: every weight is zero.
    assert!(max_weight_fits(0, usize::MAX));
    assert!(max_weight_fits(usize::MAX, 0));
    // One actor: 2 * game_count.
    assert!(max_weight_fits(1, usize::MAX / 2));
    assert!(!max_weight_fits(1, usize::MAX / 2 + 1));
    // Two actors: 6 * game_count.
    assert!(max_weight_fits(2, usize::MAX / 6));
    assert!(!max_weight_fits(2, usize::MAX / 6 + 1));
    // Many actors, one match each: 2 * (2 * n - 1).
    assert!(max_weight_fits(usize::MAX / 4, 1));
    assert!(max_weight_fits(usize::MAX / 4 + 1, 1));
    assert!(!max_weight_fits(usize::MAX / 4 + 2, 1));
    assert!(!max_weight_fits(usize::MAX, 1));
    assert!(!max_weight_fits(usize::MAX, usize::MAX));
    assert!(max_weight_fits(4, 1000));
}
