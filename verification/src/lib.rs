//! Core of a two-player chess server: an authoritative rule engine
//! (move generation, check/checkmate/stalemate and draw detection) and
//! the pure matchmaking and per-connection protocol state machines that
//! drive it.  All network plumbing lives outside this crate; everything
//! here is verified.

pub mod board;
pub mod attack;
pub mod state;
pub mod moves;
pub mod engine;
pub mod laws;
pub mod rooms;
pub mod session;

pub use board::{Board, CastlingRights, Color, Move, Piece, PieceType, Square};
pub use state::{starting_board, GameState};
pub use moves::{is_square_attacked, legal_moves_for_piece, legal_moves_for_piece_strict};
