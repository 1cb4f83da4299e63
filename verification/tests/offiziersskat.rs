use gaming::games::offiziersskat::{
    Card, MidGameState, OffiziersSkat, Player, SelectTrumpState, State,
};

fn mid_game(current_player: Player) -> OffiziersSkat {
    OffiziersSkat {
        state: State::MidGame(MidGameState {
            current_player,
            player_one_cards: [None, None, None, None, None, None, None, None],
            player_one_score: 3,
            player_two_cards: [None, None, None, None, None, None, None, None],
            player_two_score: 5,
        }),
    }
}

#[test]
fn first_player_selects_the_trump() {
    let mut game =
        OffiziersSkat { state: State::SelectTrump(SelectTrumpState { cards: [Card, Card, Card, Card] }) };
    assert_eq!(game.next(), Player::One);
    assert_eq!(game.next(), Player::One);
    assert_eq!(game.next(), Player::One);
    assert!(matches!(game.state, State::SelectTrump(_)));
}

#[test]
fn players_alternate_while_tricks_are_played() {
    let mut game = mid_game(Player::One);
    assert_eq!(game.next(), Player::One);
    assert_eq!(game.next(), Player::Two);
    assert_eq!(game.next(), Player::One);
    assert_eq!(game.next(), Player::Two);
    let mut game = mid_game(Player::Two);
    assert_eq!(game.next(), Player::Two);
    assert_eq!(game.next(), Player::One);
    match game.state {
        State::MidGame(state) => {
            assert_eq!(state.current_player, Player::Two);
            assert_eq!(state.player_one_score, 3);
            assert_eq!(state.player_two_score, 5);
        },
        State::SelectTrump(_) => panic!("the phase must not change"),
    }
}

#[test]
fn offiziersskat_player_converts_to_its_slot() {
    assert_eq!(usize::from(Player::One), 0);
    assert_eq!(usize::from(Player::Two), 1);
}
