//! Rules and search core of a chess engine: a bitboard position model, a
//! pseudo-legal move generator, a single-move validator, a material
//! evaluator and a fixed-depth minimax search.
//!
//! - `bits`: masks as sets of squares.
//! - `square`: squares, moves and their flags.
//! - `board`: colors, pieces and boards; playing a move.
//! - `notation`: boards read from text, and drawn.
//! - `attack`: the tables of knight and pawn destinations.
//! - `move_generator`: the moves of pawns, knights and rooks.
//! - `validator`: the verdict on one move.
//! - `evaluate`: scores of positions.
//! - `ai`: the search, and the player that searches.
//! - `player`: who can be asked for a move.
//! - `engine`: the state behind a line-oriented protocol.

pub mod ai;
pub mod attack;
pub mod bits;
pub mod board;
pub mod engine;
pub mod evaluate;
pub mod move_generator;
pub mod notation;
pub mod player;
pub mod square;
pub mod validator;
