//! A verified two-player chess engine: move-route geometry, legality
//! validation, check and checkmate detection, castling, pawn promotion,
//! and a depth-limited minimax search with alpha-beta pruning.
//!
//! Terminal input and rendering are left to the surrounding program; the
//! engine works on plain board values and returns a closed set of outcome
//! tags for every move request.

pub mod allowed_moves;
pub mod chessboard;
pub mod chessboard_validation;
pub mod move_analysis;
pub mod piece_actions;
pub mod piece_type;
pub mod player;
pub mod routes_moves;
pub mod utilities;
