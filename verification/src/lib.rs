//! A harness for pitting interchangeable actors against each other in
//! turn-based games, and for turning many repeated matches into win and draw
//! statistics by which the actors are ranked.

pub mod games;
pub mod utils;
