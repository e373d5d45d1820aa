//! A chess rules engine with a depth-bounded alpha-beta move chooser.
//!
//! Every rule of the game is stated over a mathematical model of the game
//! state ([`game_state::GameView`]); the executable functions are proved to
//! compute exactly what the model describes.
//!
//! - [`position`], [`piece_type`], [`piece_move`]: squares, pieces, moves
//!   and their notation.
//! - [`game_state`], [`repetition`]: the state, its model, and the count
//!   of positions.
//! - [`generation`], [`reach`], [`shape`]: the pseudo-legal moves, as they
//!   are generated and as the squares tell them.
//! - [`transition`], [`legality`]: applying a move, check, legal moves, and
//!   the consistency that play preserves.
//! - [`evaluation`], [`computer_player`]: scoring a position and searching
//!   for a move.
//! - [`census`], [`minimax`]: why evaluations stay below the mate scores,
//!   and why the search with pruning finds the minimax value.
//! - [`human_player`]: reading a move that a person has entered.
//! - [`laws`]: what the rules guarantee.
//! - [`trusted`]: what is taken on trust of code outside the library.

pub mod census;
pub mod computer_player;
pub mod evaluation;
pub mod game_state;
pub mod generation;
pub mod human_player;
pub mod laws;
pub mod legality;
pub mod minimax;
pub mod piece_move;
pub mod piece_type;
pub mod position;
pub mod reach;
pub mod repetition;
pub mod shape;
pub mod transition;
pub mod trusted;
