//! Basic board vocabulary: piece kinds, colors, squares and the
//! castling-rights record.
//!
//! Squares are indices `0..64` with `index = rank * 8 + file`; file 0 is
//! the a-file and rank 0 is White's back rank, so index 4 is the White
//! king's origin and 0, 7, 56, 63 are the rook corners.

use vstd::prelude::*;

verus! {

/// The six chess piece kinds.
#[derive(Debug, Clone, Copy, PartialEq, Eq, Structural)]
pub enum PieceType {
    Pawn,
    Knight,
    Bishop,
    Rook,
    Queen,
    King,
}

/// The two sides.
#[derive(Debug, Clone, Copy, PartialEq, Eq, Structural)]
pub enum Color {
    White,
    Black,
}

/// A piece on the board: a kind together with the side it belongs to.
#[derive(Debug, Clone, Copy, PartialEq, Eq, Structural)]
pub struct Piece {
    pub piece_type: PieceType,
    pub color: Color,
}

/// A requested move: source and destination squares plus an optional
/// promotion choice for pawns reaching the last rank.
#[derive(Debug, Clone, Copy, PartialEq, Eq, Structural)]
pub struct Move {
    pub from: u8,
    pub to: u8,
    pub promotion: Option<PieceType>,
    pub is_castle: bool,
    pub is_en_passant: bool,
}

/// The four independent castling permissions.
#[derive(Debug, Clone, Copy, PartialEq, Eq, Structural)]
pub struct CastlingRights {
    pub white_kingside: bool,
    pub white_queenside: bool,
    pub black_kingside: bool,
    pub black_queenside: bool,
}

/// One square of the board: empty or holding a piece.
pub type Square = Option<Piece>;

/// A board: 64 squares, rank-major.
pub type Board = Vec<Square>;

/// The side opposing `color`.
pub fn opposite_color(color: Color) -> (r: Color)
    ensures
        r == opposite(color),
{
    match color {
        Color::White => Color::Black,
        Color::Black => Color::White,
    }
}

/// Spec twin of [`opposite_color`].
pub open spec fn opposite(color: Color) -> Color {
    match color {
        Color::White => Color::Black,
        Color::Black => Color::White,
    }
}

/// File (column) of a square index.
pub open spec fn file_of(sq: int) -> int {
    sq % 8
}

/// Rank (row) of a square index.
pub open spec fn rank_of(sq: int) -> int {
    sq / 8
}

/// Whether a (file, rank) coordinate pair lies on the board.
pub open spec fn on_board(x: int, y: int) -> bool {
    0 <= x < 8 && 0 <= y < 8
}

/// Square index of a (file, rank) coordinate pair.
pub open spec fn square_at(x: int, y: int) -> int {
    y * 8 + x
}

} // verus!
