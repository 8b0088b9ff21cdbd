//! A two-team betting card game: cards, players, the board, and the rules that
//! resolve a round and settle the chips staked on it.

pub mod card;
pub mod player;
pub mod board;
pub mod round;
pub mod game;
pub mod deck;
pub mod interface;
