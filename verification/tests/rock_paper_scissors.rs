use gaming::games::rock_paper_scissors::{
    game_matrix, players, Choice, Paperer, Player, Randomer, RockPaperScissors, Rocker, Scissorer,
};
use gaming::utils::{
    Actor, Entrant, Game, OutcomeStats, TwoPlayerOutcome, WithPlayers,
};
use gaming::utils::tournament::get_sorted_stats_and_names;

fn counts(cell: &OutcomeStats) -> (usize, usize, usize) {
    (cell.one_wins(), cell.two_wins(), cell.draws())
}

#[test]
fn next_yields_first_player_on_fresh_game() {
    let mut game = RockPaperScissors::default();
    assert_eq!(game.next(), Player::One);
    assert_eq!(game.next(), Player::One);
    assert_eq!(RockPaperScissors::index(Player::One), 0);
    assert_eq!(RockPaperScissors::index(Player::Two), 1);
}

#[test]
fn next_alternates_within_a_round_and_restarts_after_it() {
    let mut game = RockPaperScissors::default();
    assert_eq!(game.next(), Player::One);
    assert!(game.try_act(Choice::Rock, Player::One).is_ok());
    assert_eq!(game.outcome(), None);
    assert_eq!(game.next(), Player::Two);
    assert!(game.try_act(Choice::Paper, Player::Two).is_ok());
    assert_eq!(game.outcome(), Some(TwoPlayerOutcome::TwoWins));
    // Asking again starts a new round.
    assert_eq!(game.next(), Player::One);
    assert_eq!(game.outcome(), None);
    assert_eq!(game.next(), Player::One);
}

#[test]
fn player_converts_to_its_slot() {
    assert_eq!(usize::from(Player::One), 0);
    assert_eq!(usize::from(Player::Two), 1);
}

fn round(one: Choice, two: Choice) -> Option<TwoPlayerOutcome> {
    let mut game = RockPaperScissors::default();
    game.try_act(one, Player::One).ok().unwrap();
    game.try_act(two, Player::Two).ok().unwrap();
    game.outcome()
}

#[test]
fn outcome_follows_the_payoff_table() {
    let (rock, paper, scissors) = (Choice::Rock, Choice::Paper, Choice::Scissors);
    assert_eq!(round(rock, scissors), Some(TwoPlayerOutcome::OneWins));
    assert_eq!(round(scissors, paper), Some(TwoPlayerOutcome::OneWins));
    assert_eq!(round(paper, rock), Some(TwoPlayerOutcome::OneWins));
    assert_eq!(round(rock, paper), Some(TwoPlayerOutcome::TwoWins));
    assert_eq!(round(paper, scissors), Some(TwoPlayerOutcome::TwoWins));
    assert_eq!(round(scissors, rock), Some(TwoPlayerOutcome::TwoWins));
    assert_eq!(round(rock, rock), Some(TwoPlayerOutcome::Draw));
    assert_eq!(round(paper, paper), Some(TwoPlayerOutcome::Draw));
    assert_eq!(round(scissors, scissors), Some(TwoPlayerOutcome::Draw));
}

#[test]
fn outcome_is_none_until_both_have_chosen() {
    let mut game = RockPaperScissors::default();
    assert_eq!(game.outcome(), None);
    game.try_act(Choice::Scissors, Player::Two).ok().unwrap();
    assert_eq!(game.outcome(), None);
    // Calling it again changes nothing.
    assert_eq!(game.outcome(), None);
    game.try_act(Choice::Rock, Player::One).ok().unwrap();
    assert_eq!(game.outcome(), Some(TwoPlayerOutcome::OneWins));
    assert_eq!(game.outcome(), Some(TwoPlayerOutcome::OneWins));
}

#[test]
fn from_sample_maps_numbers_to_choices() {
    assert_eq!(Choice::from_sample(0), Choice::Rock);
    assert_eq!(Choice::from_sample(1), Choice::Paper);
    assert_eq!(Choice::from_sample(2), Choice::Scissors);
}

#[test]
fn fixed_actors_choose_their_name() {
    assert_eq!(Rocker.act(&()), Choice::Rock);
    assert_eq!(Paperer.act(&()), Choice::Paper);
    assert_eq!(Scissorer.act(&()), Choice::Scissors);
    assert_eq!(Rocker.name(), "Rocker");
    assert_eq!(Paperer.name(), "Paperer");
    assert_eq!(Scissorer.name(), "Scissorer");
    assert_eq!(Randomer.name(), "Randomer");
}

#[test]
fn randomer_draws_more_than_one_choice() {
    let mut actor = Randomer;
    let mut seen = [false; 3];
    for _ in 0..300 {
        match actor.act(&()) {
            Choice::Rock => seen[0] = true,
            Choice::Paper => seen[1] = true,
            Choice::Scissors => seen[2] = true,
        }
    }
    assert_eq!(seen, [true, true, true]);
}

#[test]
fn single_match_rock_against_paper() {
    let seated = WithPlayers::<RockPaperScissors>::new(vec![
        Rocker.contestant(),
        Paperer.contestant(),
    ]);
    assert_eq!(seated.play().ok(), Some(TwoPlayerOutcome::TwoWins));
    let seated = WithPlayers::<RockPaperScissors>::new(vec![
        Scissorer.contestant(),
        Paperer.contestant(),
    ]);
    assert_eq!(seated.play().ok(), Some(TwoPlayerOutcome::OneWins));
    let seated = WithPlayers::<RockPaperScissors>::new(vec![
        Scissorer.contestant(),
        Scissorer.contestant(),
    ]);
    assert_eq!(seated.play().ok(), Some(TwoPlayerOutcome::Draw));
}

#[test]
fn rock_against_paper_four_repetitions() {
    let entered: Vec<Box<dyn Entrant<RockPaperScissors>>> =
        vec![Box::new(Rocker), Box::new(Paperer)];
    let matrix = WithPlayers::<RockPaperScissors>::play_matrix(&entered, 4).ok().unwrap();
    assert_eq!(matrix.len(), 2);
    assert_eq!(matrix[0].len(), 2);
    assert_eq!(matrix[1].len(), 2);
    // (Rock, Paper): the second-listed actor wins every match.
    assert_eq!(counts(&matrix[0][1]), (0, 4, 0));
    // (Paper, Rock): the first-listed actor wins every match.
    assert_eq!(counts(&matrix[1][0]), (4, 0, 0));
    // (Rock, Rock) and (Paper, Paper): all draws.
    assert_eq!(counts(&matrix[0][0]), (0, 0, 4));
    assert_eq!(counts(&matrix[1][1]), (0, 0, 4));
}

#[test]
fn single_actor_against_itself_ten_repetitions() {
    let entered: Vec<Box<dyn Entrant<RockPaperScissors>>> = vec![Box::new(Randomer)];
    let matrix = WithPlayers::<RockPaperScissors>::play_matrix(&entered, 10).ok().unwrap();
    assert_eq!(matrix.len(), 1);
    assert_eq!(matrix[0].len(), 1);
    assert_eq!(matrix[0][0].games(), 10);
    let (names, stats) = get_sorted_stats_and_names(&entered, 10).ok().unwrap();
    assert_eq!(names, vec!["Randomer".to_string()]);
    assert_eq!(stats.len(), 1);
    assert_eq!(stats[0].len(), 1);
    assert_eq!(stats[0][0].games(), 10);
}

#[test]
fn every_cell_counts_every_repetition() {
    let matrix = game_matrix(7).ok().unwrap();
    assert_eq!(matrix.len(), 4);
    for row in &matrix {
        assert_eq!(row.len(), 4);
        for cell in row {
            assert_eq!(cell.games(), 7);
            assert_eq!(cell.one_wins() + cell.two_wins() + cell.draws(), 7);
        }
    }
    // Rocker, Paperer, Scissorer among themselves are decided by the table.
    assert_eq!(counts(&matrix[0][2]), (7, 0, 0));
    assert_eq!(counts(&matrix[2][0]), (0, 7, 0));
    assert_eq!(counts(&matrix[1][2]), (0, 7, 0));
    assert_eq!(counts(&matrix[2][2]), (0, 0, 7));
}

#[test]
fn tournament_without_matches_is_all_zero() {
    let matrix = game_matrix(0).ok().unwrap();
    assert_eq!(matrix.len(), 4);
    for row in &matrix {
        assert_eq!(row.len(), 4);
        for cell in row {
            assert_eq!(counts(cell), (0, 0, 0));
        }
    }
    let nobody: Vec<Box<dyn Entrant<RockPaperScissors>>> = Vec::new();
    let matrix = WithPlayers::<RockPaperScissors>::play_matrix(&nobody, 5).ok().unwrap();
    assert!(matrix.is_empty());
}

#[test]
fn players_are_the_four_actors_in_order() {
    let entered = players();
    let names: Vec<String> = entered.iter().map(|actor| actor.name()).collect();
    assert_eq!(names, vec!["Rocker", "Paperer", "Scissorer", "Randomer"]);
}

#[test]
fn ranked_tournament_of_fixed_actors() {
    // Rocker loses to Paperer, both draw against themselves.
    let entered: Vec<Box<dyn Entrant<RockPaperScissors>>> =
        vec![Box::new(Paperer), Box::new(Rocker)];
    let (names, stats) = get_sorted_stats_and_names(&entered, 4).ok().unwrap();
    // Weights: Paperer 2*4 (row) + 2*4 (column) + 4 + 4 (own cell) = 24, Rocker 4 + 4 = 8.
    assert_eq!(names, vec!["Rocker".to_string(), "Paperer".to_string()]);
    assert_eq!(counts(&stats[0][0]), (0, 0, 4));
    assert_eq!(counts(&stats[0][1]), (0, 4, 0));
    assert_eq!(counts(&stats[1][0]), (4, 0, 0));
    assert_eq!(counts(&stats[1][1]), (0, 0, 4));
}

#[test]
fn take_turn_reports_the_outcome_once_the_round_is_over() {
    let mut seated = WithPlayers::<RockPaperScissors>::new(vec![
        Paperer.contestant(),
        Rocker.contestant(),
    ]);
    assert_eq!(seated.take_turn().ok(), Some(None));
    assert_eq!(seated.take_turn().ok(), Some(Some(TwoPlayerOutcome::OneWins)));
    // The next turn starts a new round.
    assert_eq!(seated.take_turn().ok(), Some(None));
    assert_eq!(seated.take_turn().ok(), Some(Some(TwoPlayerOutcome::OneWins)));
}

#[test]
fn match_with_a_random_actor_ends_with_some_outcome() {
    for _ in 0..50 {
        let seated = WithPlayers::<RockPaperScissors>::new(vec![
            Randomer.contestant(),
            Rocker.contestant(),
        ]);
        let outcome = seated.play().ok().unwrap();
        assert!(matches!(
            outcome,
            TwoPlayerOutcome::OneWins | TwoPlayerOutcome::TwoWins | TwoPlayerOutcome::Draw
        ));
        assert_eq!(RockPaperScissors::player_count(), 2);
    }
}

#[test]
fn contestant_is_an_independent_copy_of_the_actor() {
    let entered = Paperer;
    let mut first = entered.contestant();
    let mut second = entered.contestant();
    assert_eq!(first.actor.name(), "Paperer");
    assert_eq!(second.actor.name(), "Paperer");
    assert_eq!(first.actor.act(&()), Choice::Paper);
    assert_eq!(second.actor.act(&()), Choice::Paper);
    assert_eq!(Scissorer.contestant().actor.act(&()), Choice::Scissors);
    assert_eq!(entered.name(), "Paperer");
}

#[test]
fn entrants_are_entered_under_their_names() {
    let entered = players();
    assert_eq!(entered[0].entry_name(), "Rocker");
    assert_eq!(entered[1].entry_name(), "Paperer");
    assert_eq!(entered[2].entry_name(), "Scissorer");
    assert_eq!(entered[3].entry_name(), "Randomer");
    assert_eq!(Rocker.entry_name(), Rocker.name());
}

#[test]
fn game_matrix_decides_the_cells_of_the_fixed_actors() {
    let choices = [Choice::Rock, Choice::Paper, Choice::Scissors];
    let matrix = game_matrix(5).ok().unwrap();
    for i in 0..3 {
        for j in 0..3 {
            let expected = match round(choices[i], choices[j]).unwrap() {
                TwoPlayerOutcome::OneWins => (5, 0, 0),
                TwoPlayerOutcome::TwoWins => (0, 5, 0),
                TwoPlayerOutcome::Draw => (0, 0, 5),
            };
            assert_eq!(counts(&matrix[i][j]), expected);
            // The cell of the pair the other way round mirrors it.
            assert_eq!(matrix[j][i].one_wins(), matrix[i][j].two_wins());
            assert_eq!(matrix[j][i].two_wins(), matrix[i][j].one_wins());
            assert_eq!(matrix[j][i].draws(), matrix[i][j].draws());
        }
    }
}
