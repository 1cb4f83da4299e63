//! The harness itself: outcome statistics, the game and actor contracts, the
//! match runner, the tournament and the ranking.

pub mod drawing;
pub mod game;
pub mod ranking;
pub mod ranking_laws;
pub mod runner;
pub mod stats;
pub mod tournament;

pub use game::{Actor, Contestant, Entrant, Game, InvalidActionError, PlayError};
pub use runner::WithPlayers;
pub use stats::{OutcomeStats, TwoPlayerOutcome};
pub use tournament::get_sorted_stats_and_names;
