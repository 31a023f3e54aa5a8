//! The square-attacked oracle: which squares a piece reaches by capture
//! geometry, and whether a side attacks a given square.
//!
//! Pawn attacks follow capture geometry only (never forward pushes, and
//! the en-passant target does not count); the king case is plain
//! adjacency, so attack testing never recurses through castling.

use vstd::prelude::*;

use crate::board::{on_board, square_at, file_of, rank_of, Color, Piece, PieceType};

verus! {

/// Absolute difference, used for jump and adjacency geometry.
pub open spec fn dist(a: int, b: int) -> int {
    if a >= b {
        a - b
    } else {
        b - a
    }
}

/// A unit step direction on the board (at least one axis moves).
pub open spec fn valid_dir(dx: int, dy: int) -> bool {
    -1 <= dx <= 1 && -1 <= dy <= 1 && !(dx == 0 && dy == 0)
}

/// How many steps fit on the board along one axis from `pos` going `d`.
pub open spec fn axis_fuel(pos: int, d: int) -> int {
    if d > 0 {
        7 - pos
    } else if d < 0 {
        pos
    } else {
        8
    }
}

/// Steps remaining before a ray from `(x, y)` in direction `(dx, dy)`
/// leaves the board.
pub open spec fn edge_fuel(x: int, y: int, dx: int, dy: int) -> int {
    if axis_fuel(x, dx) <= axis_fuel(y, dy) {
        axis_fuel(x, dx)
    } else {
        axis_fuel(y, dy)
    }
}

/// A sliding ray from `(x, y)` in direction `(dx, dy)` reaches square
/// `target`: the ray stops at the first occupied square, which it still
/// reaches, whatever stands there.
pub open spec fn ray_hits(
    board: Seq<Option<Piece>>,
    x: int,
    y: int,
    dx: int,
    dy: int,
    target: int,
) -> bool
    decreases edge_fuel(x, y, dx, dy),
{
    if !valid_dir(dx, dy) {
        false
    } else {
        let nx = x + dx;
        let ny = y + dy;
        if !on_board(nx, ny) {
            false
        } else {
            let n = square_at(nx, ny);
            if n == target {
                true
            } else if board[n] is Some {
                false
            } else {
                ray_hits(board, nx, ny, dx, dy, target)
            }
        }
    }
}

/// A pawn of color `c` on `from` attacks `to`: one rank forward,
/// one file to either side.
pub open spec fn pawn_attacks(c: Color, from: int, to: int) -> bool {
    let dir: int = if c == Color::White {
        1
    } else {
        -1
    };
    rank_of(to) == rank_of(from) + dir && dist(file_of(to), file_of(from)) == 1
}

/// Knight jump geometry.
pub open spec fn knight_jumps(from: int, to: int) -> bool {
    let adx = dist(file_of(to), file_of(from));
    let ady = dist(rank_of(to), rank_of(from));
    (adx == 1 && ady == 2) || (adx == 2 && ady == 1)
}

/// King adjacency geometry.
pub open spec fn king_adjacent(from: int, to: int) -> bool {
    from != to && dist(file_of(to), file_of(from)) <= 1 && dist(rank_of(to), rank_of(from)) <= 1
}

/// A bishop on `from` attacks `to` over `board`.
pub open spec fn bishop_rays(board: Seq<Option<Piece>>, from: int, to: int) -> bool {
    ||| ray_hits(board, file_of(from), rank_of(from), 1, 1, to)
    ||| ray_hits(board, file_of(from), rank_of(from), 1, -1, to)
    ||| ray_hits(board, file_of(from), rank_of(from), -1, 1, to)
    ||| ray_hits(board, file_of(from), rank_of(from), -1, -1, to)
}

/// A rook on `from` attacks `to` over `board`.
pub open spec fn rook_rays(board: Seq<Option<Piece>>, from: int, to: int) -> bool {
    ||| ray_hits(board, file_of(from), rank_of(from), 1, 0, to)
    ||| ray_hits(board, file_of(from), rank_of(from), -1, 0, to)
    ||| ray_hits(board, file_of(from), rank_of(from), 0, 1, to)
    ||| ray_hits(board, file_of(from), rank_of(from), 0, -1, to)
}

/// The piece standing on `from` attacks `to` over `board`.
pub open spec fn piece_attacks(board: Seq<Option<Piece>>, from: int, to: int) -> bool {
    board[from] matches Some(p) && match p.piece_type {
        PieceType::Pawn => pawn_attacks(p.color, from, to),
        PieceType::Knight => knight_jumps(from, to),
        PieceType::King => king_adjacent(from, to),
        PieceType::Bishop => bishop_rays(board, from, to),
        PieceType::Rook => rook_rays(board, from, to),
        PieceType::Queen => bishop_rays(board, from, to) || rook_rays(board, from, to),
    }
}

/// Some piece of color `by` attacks `target`.
pub open spec fn is_attacked(board: Seq<Option<Piece>>, target: int, by: Color) -> bool {
    exists|i: int|
        0 <= i < 64 && ((#[trigger] board[i]) matches Some(p) && p.color == by && piece_attacks(
            board,
            i,
            target,
        ))
}

/// Where a ray lands relative to its origin: each active axis moves
/// strictly in its direction, each inactive axis stays fixed.
pub proof fn lemma_ray_bounds(
    board: Seq<Option<Piece>>,
    x: int,
    y: int,
    dx: int,
    dy: int,
    target: int,
)
    requires
        ray_hits(board, x, y, dx, dy, target),
    ensures
        dx == 1 ==> file_of(target) > x,
        dx == -1 ==> file_of(target) < x,
        dx == 0 ==> file_of(target) == x,
        dy == 1 ==> rank_of(target) > y,
        dy == -1 ==> rank_of(target) < y,
        dy == 0 ==> rank_of(target) == y,
    decreases edge_fuel(x, y, dx, dy),
{
    let nx = x + dx;
    let ny = y + dy;
    let n = square_at(nx, ny);
    if n == target {
        assert(file_of(n) == nx && rank_of(n) == ny) by {
            assert(n == ny * 8 + nx);
        };
    } else {
        lemma_ray_bounds(board, nx, ny, dx, dy, target);
    }
}

/// Rays in two different directions from the same origin reach
/// disjoint squares.
pub proof fn lemma_rays_disjoint(
    board: Seq<Option<Piece>>,
    x: int,
    y: int,
    dx1: int,
    dy1: int,
    dx2: int,
    dy2: int,
    target: int,
)
    requires
        ray_hits(board, x, y, dx1, dy1, target),
        !(dx1 == dx2 && dy1 == dy2),
    ensures
        !ray_hits(board, x, y, dx2, dy2, target),
{
    lemma_ray_bounds(board, x, y, dx1, dy1, target);
    if ray_hits(board, x, y, dx2, dy2, target) {
        lemma_ray_bounds(board, x, y, dx2, dy2, target);
    }
}

/// Walks one ray and reports whether it reaches `target` before being
/// blocked or running off the board.
fn ray_reaches(board: &Vec<Option<Piece>>, from: u8, dx: i8, dy: i8, target: u8) -> (r: bool)
    requires
        board@.len() == 64,
        from < 64,
        target < 64,
        valid_dir(dx as int, dy as int),
    ensures
        r == ray_hits(board@, file_of(from as int), rank_of(from as int), dx as int, dy as int, target as int),
{
    let mut x: i8 = (from % 8) as i8;
    let mut y: i8 = (from / 8) as i8;
    loop
        invariant
            board@.len() == 64,
            target < 64,
            valid_dir(dx as int, dy as int),
            on_board(x as int, y as int),
            ray_hits(board@, file_of(from as int), rank_of(from as int), dx as int, dy as int, target as int)
                == ray_hits(board@, x as int, y as int, dx as int, dy as int, target as int),
        decreases edge_fuel(x as int, y as int, dx as int, dy as int),
    {
        let nx = x + dx;
        let ny = y + dy;
        if nx < 0 || ny < 0 || nx >= 8 || ny >= 8 {
            return false;
        }
        let n = (ny * 8 + nx) as u8;
        assert(n as int == square_at(nx as int, ny as int));
        if n == target {
            return true;
        }
        if board[n as usize].is_some() {
            return false;
        }
        x = nx;
        y = ny;
    }
}

/// Whether the piece on `from` attacks `target`, by the geometry of its
/// kind.
fn piece_attacks_square(board: &Vec<Option<Piece>>, from: u8, target: u8) -> (r: bool)
    requires
        board@.len() == 64,
        from < 64,
        target < 64,
        board@[from as int] is Some,
    ensures
        r == piece_attacks(board@, from as int, target as int),
{
    let p = board[from as usize].unwrap();
    let fx = (from % 8) as i8;
    let fy = (from / 8) as i8;
    let tx = (target % 8) as i8;
    let ty = (target / 8) as i8;
    let adx = if tx >= fx {
        tx - fx
    } else {
        fx - tx
    };
    let ady = if ty >= fy {
        ty - fy
    } else {
        fy - ty
    };
    match p.piece_type {
        PieceType::Pawn => {
            let dir: i8 = if p.color == Color::White {
                1
            } else {
                -1
            };
            ty == fy + dir && adx == 1
        },
        PieceType::Knight => (adx == 1 && ady == 2) || (adx == 2 && ady == 1),
        PieceType::King => !(from == target) && adx <= 1 && ady <= 1,
        PieceType::Bishop => {
            ray_reaches(board, from, 1, 1, target) || ray_reaches(board, from, 1, -1, target)
                || ray_reaches(board, from, -1, 1, target) || ray_reaches(
                board,
                from,
                -1,
                -1,
                target,
            )
        },
        PieceType::Rook => {
            ray_reaches(board, from, 1, 0, target) || ray_reaches(board, from, -1, 0, target)
                || ray_reaches(board, from, 0, 1, target) || ray_reaches(board, from, 0, -1, target)
        },
        PieceType::Queen => {
            ray_reaches(board, from, 1, 1, target) || ray_reaches(board, from, 1, -1, target)
                || ray_reaches(board, from, -1, 1, target) || ray_reaches(board, from, -1, -1, target)
                || ray_reaches(board, from, 1, 0, target) || ray_reaches(board, from, -1, 0, target)
                || ray_reaches(board, from, 0, 1, target) || ray_reaches(board, from, 0, -1, target)
        },
    }
}

/// Whether any piece of `by` attacks `target` on `board`.
pub fn board_attacked(board: &Vec<Option<Piece>>, target: u8, by: Color) -> (r: bool)
    requires
        board@.len() == 64,
        target < 64,
    ensures
        r == is_attacked(board@, target as int, by),
{
    let mut i: u8 = 0;
    while i < 64
        invariant
            board@.len() == 64,
            target < 64,
            i <= 64,
            forall|j: int|
                0 <= j < i ==> !((#[trigger] board@[j]) matches Some(p) && p.color == by
                    && piece_attacks(board@, j, target as int)),
        decreases 64 - i,
    {
        match board[i as usize] {
            Some(p) => {
                if p.color == by {
                    if piece_attacks_square(board, i, target) {
                        return true;
                    }
                }
            },
            None => {},
        }
        i = i + 1;
    }
    false
}

} // verus!
