//! Offiziersskat, a card game for two players in two phases: first the trump
//! is selected, then tricks are played. This module holds the game's state
//! and its turn order.

use vstd::prelude::*;
use vstd::std_specs::convert::FromSpecImpl;

verus! {

/// The two players of the game.
#[derive(Debug, Clone, Copy, PartialEq, Eq, Structural)]
pub enum Player {
    One,
    Two,
}

impl Player {
    /// The opponent of this player.
    pub open spec fn spec_other(self) -> Player {
        match self {
            Player::One => Player::Two,
            Player::Two => Player::One,
        }
    }
}

impl From<Player> for usize {
    fn from(player: Player) -> (index: usize) {
        match player {
            Player::One => 0,
            Player::Two => 1,
        }
    }
}

impl FromSpecImpl<Player> for usize {
    open spec fn obeys_from_spec() -> bool {
        true
    }

    open spec fn from_spec(player: Player) -> usize {
        match player {
            Player::One => 0,
            Player::Two => 1,
        }
    }
}

/// A playing card.
#[derive(Debug)]
pub struct Card;

/// The state while tricks are played: whose turn it is, and for each player
/// the eight places on the table with the card that lies open there and the
/// card, if any, that lies face down beneath it, and the points taken so
/// far.
#[derive(Debug)]
pub struct MidGameState {
    pub current_player: Player,
    pub player_one_cards: [Option<(Card, Option<Card>)>; 8],
    pub player_one_score: u8,
    pub player_two_cards: [Option<(Card, Option<Card>)>; 8],
    pub player_two_score: u8,
}

/// The state while the trump is selected: the cards from which the first
/// player selects.
#[derive(Debug)]
pub struct SelectTrumpState {
    pub cards: [Card; 4],
}

/// The state of the game, by phase.
#[derive(Debug)]
pub enum State {
    MidGame(MidGameState),
    SelectTrump(SelectTrumpState),
}

/// A game of Offiziersskat.
#[derive(Debug)]
pub struct OffiziersSkat {
    pub state: State,
}

impl OffiziersSkat {
    /// The player whom `next` yields: while the trump is selected the first
    /// player, afterwards the current player.
    pub open spec fn to_move(&self) -> Player {
        match self.state {
            State::MidGame(state) => state.current_player,
            State::SelectTrump(_) => Player::One,
        }
    }

    /// The state that `next` leaves behind: while tricks are played the turn
    /// passes to the opponent, and nothing else changes.
    pub open spec fn after_next(&self) -> OffiziersSkat {
        match self.state {
            State::MidGame(state) => OffiziersSkat {
                state: State::MidGame(
                    MidGameState { current_player: state.current_player.spec_other(), ..state },
                ),
            },
            State::SelectTrump(_) => *self,
        }
    }

    /// While tricks are played the players alternate strictly: the player
    /// after the next is the opponent of the next, and after two turns it is
    /// the same player's turn again, in the same state.
    pub proof fn lemma_next_alternates(&self)
        requires
            self.state is MidGame,
        ensures
            self.after_next().to_move() == self.to_move().spec_other(),
            self.after_next().to_move() != self.to_move(),
            self.after_next().after_next() == *self,
    {
    }

    /// While the trump is selected it stays the first player's turn.
    pub proof fn lemma_next_stays_while_selecting(&self)
        requires
            self.state is SelectTrump,
        ensures
            self.to_move() == Player::One,
            self.after_next() == *self,
    {
    }

    /// Yields the player whose turn it is and passes the turn on.
    pub fn next(&mut self) -> (id: Player)
        ensures
            id == old(self).to_move(),
            *final(self) == old(self).after_next(),
    {
        match &mut self.state {
            State::MidGame(state) => {
                let old_player = state.current_player;
                state.current_player = match state.current_player {
                    Player::One => Player::Two,
                    Player::Two => Player::One,
                };
                old_player
            },
            State::SelectTrump(_) => Player::One,
        }
    }
}

} // verus!
