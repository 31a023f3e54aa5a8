//! Pseudo-legal and strictly legal move generation.
//!
//! `legal_moves_for_piece` enumerates moves that obey piece movement
//! geometry and blocking/capture rules but may leave the mover's king
//! in check; `legal_moves_for_piece_strict` additionally plays each
//! candidate on a trial board and rejects any that leaves the mover's
//! king attacked.

use vstd::prelude::*;

use crate::attack::{
    bishop_rays, is_attacked, king_adjacent, knight_jumps, pawn_attacks, ray_hits, rook_rays,
    lemma_rays_disjoint, valid_dir, board_attacked,
};
use crate::board::{
    file_of, on_board, opposite, opposite_color, rank_of, square_at, Board, Color, Piece,
    PieceType,
};
use crate::state::{copy_board, wf, GameState, StateView};

verus! {

broadcast use crate::state::lemma_state_view;

/// The square holds a piece of color `c`.
pub open spec fn same_color_at(board: Seq<Option<Piece>>, sq: int, c: Color) -> bool {
    board[sq] matches Some(q) && q.color == c
}

/// A pawn of color `c` on `from` may move to `to`: forward one rank to
/// an empty square, forward two from its starting rank over empty
/// squares, or diagonally onto an enemy piece or the en-passant target.
pub open spec fn pawn_pseudo(
    board: Seq<Option<Piece>>,
    ep: Option<u8>,
    from: int,
    to: int,
    c: Color,
) -> bool {
    let dir: int = if c == Color::White {
        1
    } else {
        -1
    };
    let start: int = if c == Color::White {
        1
    } else {
        6
    };
    &&& 0 <= to < 64
    &&& {
        ||| (to == from + 8 * dir && board[to] is None)
        ||| (rank_of(from) == start && to == from + 16 * dir && board[from + 8 * dir] is None
            && board[to] is None)
        ||| (pawn_attacks(c, from, to) && (match board[to] {
            Some(q) => q.color != c,
            None => ep == Some(to as u8),
        }))
    }
}

/// Castling availability: the king stands on its origin square, the
/// relevant right is set, the squares between king and rook are empty,
/// and none of the king's origin, passed-through and destination
/// squares is attacked by the opposing side.
pub open spec fn castle_pseudo(v: StateView, from: int, to: int, c: Color) -> bool {
    match c {
        Color::White => from == 4 && {
            ||| (to == 6 && v.castling.white_kingside && v.board[5] is None && v.board[6] is None
                && !is_attacked(v.board, 4, Color::Black) && !is_attacked(v.board, 5, Color::Black)
                && !is_attacked(v.board, 6, Color::Black))
            ||| (to == 2 && v.castling.white_queenside && v.board[1] is None && v.board[2] is None
                && v.board[3] is None && !is_attacked(v.board, 4, Color::Black) && !is_attacked(
                v.board,
                3,
                Color::Black,
            ) && !is_attacked(v.board, 2, Color::Black))
        },
        Color::Black => from == 60 && {
            ||| (to == 62 && v.castling.black_kingside && v.board[61] is None && v.board[62] is None
                && !is_attacked(v.board, 60, Color::White) && !is_attacked(
                v.board,
                61,
                Color::White,
            ) && !is_attacked(v.board, 62, Color::White))
            ||| (to == 58 && v.castling.black_queenside && v.board[57] is None && v.board[58] is None
                && v.board[59] is None && !is_attacked(v.board, 60, Color::White) && !is_attacked(
                v.board,
                59,
                Color::White,
            ) && !is_attacked(v.board, 58, Color::White))
        },
    }
}

/// A pseudo-legal move: obeys the moving piece's geometry and
/// blocking/capture rules, ignoring whether the mover's king is left
/// in check.
pub open spec fn pseudo_move(v: StateView, from: int, to: int) -> bool {
    &&& 0 <= from < 64
    &&& 0 <= to < 64
    &&& (v.board[from] matches Some(p) && match p.piece_type {
        PieceType::Pawn => pawn_pseudo(v.board, v.en_passant, from, to, p.color),
        PieceType::Knight => knight_jumps(from, to) && !same_color_at(v.board, to, p.color),
        PieceType::Bishop => bishop_rays(v.board, from, to) && !same_color_at(v.board, to, p.color),
        PieceType::Rook => rook_rays(v.board, from, to) && !same_color_at(v.board, to, p.color),
        PieceType::Queen => (bishop_rays(v.board, from, to) || rook_rays(v.board, from, to))
            && !same_color_at(v.board, to, p.color),
        PieceType::King => (king_adjacent(from, to) && !same_color_at(v.board, to, p.color))
            || castle_pseudo(v, from, to, p.color),
    })
}

/// The board after playing `from -> to` naively: the piece is moved and,
/// for a pawn landing on the en-passant target, the passed pawn is
/// removed.
pub open spec fn trial_board(v: StateView, from: int, to: int) -> Seq<Option<Piece>> {
    let moved = v.board.update(to, v.board[from]).update(from, None);
    match v.board[from] {
        Some(p) => if p.piece_type == PieceType::Pawn && v.en_passant == Some(to as u8) {
            let cap: int = if p.color == Color::White {
                to - 8
            } else {
                to + 8
            };
            moved.update(cap, None)
        } else {
            moved
        },
        None => moved,
    }
}

/// The least square holding a king of color `c`, scanning from `i`.
pub open spec fn first_king_from(board: Seq<Option<Piece>>, c: Color, i: int) -> Option<int>
    decreases 64 - i,
{
    if i >= 64 {
        None
    } else if board[i] matches Some(p) && p.piece_type == PieceType::King && p.color == c {
        Some(i)
    } else {
        first_king_from(board, c, i + 1)
    }
}

/// The least square holding a king of color `c`, if any.
pub open spec fn first_king(board: Seq<Option<Piece>>, c: Color) -> Option<int> {
    first_king_from(board, c, 0)
}

/// A strictly legal move: pseudo-legal, made by the side to move, and
/// leaving that side's king present and unattacked on the trial board.
pub open spec fn strict_move(v: StateView, from: int, to: int) -> bool {
    &&& pseudo_move(v, from, to)
    &&& (v.board[from] matches Some(p) && p.color == v.turn && (match first_king(
        trial_board(v, from, to),
        p.color,
    ) {
        Some(k) => !is_attacked(trial_board(v, from, to), k, opposite(p.color)),
        None => false,
    }))
}

/// Membership in a sequence after a push.
proof fn lemma_push_contains(s: Seq<u8>, x: u8, t: u8)
    ensures
        s.push(x).contains(t) <==> (s.contains(t) || t == x),
{
    if t == x {
        assert(s.push(x)[s.len() as int] == x);
    }
    if s.contains(t) {
        let i = choose|i: int| 0 <= i < s.len() && s[i] == t;
        assert(s.push(x)[i] == t);
    }
    if s.push(x).contains(t) {
        let i = choose|i: int| 0 <= i < s.push(x).len() && s.push(x)[i] == t;
        if i < s.len() {
            assert(s[i] == t);
        }
    }
}

/// Membership in a sequence after a push, for every element at once.
pub(crate) proof fn lemma_push_contains_all(s: Seq<u8>, x: u8)
    ensures
        forall|t: u8| #[trigger] s.push(x).contains(t) <==> (s.contains(t) || t == x),
{
    assert forall|t: u8| #[trigger]
        s.push(x).contains(t) <==> (s.contains(t) || t == x) by {
        lemma_push_contains(s, x, t);
    };
}

/// Appends one square, with a membership contract.
fn push_sq(moves: &mut Vec<u8>, t: u8)
    ensures
        forall|x: u8| #[trigger]
            final(moves)@.contains(x) <==> (old(moves)@.contains(x) || x == t),
{
    proof {
        assert forall|x: u8| true implies (old(moves)@.push(t).contains(x) <==> (old(
            moves,
        )@.contains(x) || x == t)) by {
            lemma_push_contains(old(moves)@, t, x);
        };
    }
    moves.push(t);
}

/// Where a fixed-offset jump from `pos` lands.
pub open spec fn jump_target(pos: int, dx: int, dy: int) -> int {
    square_at(file_of(pos) + dx, rank_of(pos) + dy)
}

/// The jump stays on the board and does not land on a same-colored
/// piece.
pub open spec fn jump_ok(
    board: Seq<Option<Piece>>,
    pos: int,
    dx: int,
    dy: int,
    c: Color,
) -> bool {
    on_board(file_of(pos) + dx, rank_of(pos) + dy) && !same_color_at(
        board,
        jump_target(pos, dx, dy),
        c,
    )
}

/// Tries one fixed-offset jump and appends its landing square when the
/// jump is available.
fn try_jump(moves: &mut Vec<u8>, board: &Board, pos: u8, dx: i8, dy: i8, color: Color)
    requires
        board@.len() == 64,
        pos < 64,
        -2 <= dx <= 2,
        -2 <= dy <= 2,
    ensures
        forall|t: u8| #[trigger]
            final(moves)@.contains(t) <==> (old(moves)@.contains(t) || (jump_ok(
                board@,
                pos as int,
                dx as int,
                dy as int,
                color,
            ) && t as int == jump_target(pos as int, dx as int, dy as int))),
{
    let nx = (pos % 8) as i8 + dx;
    let ny = (pos / 8) as i8 + dy;
    if nx >= 0 && nx < 8 && ny >= 0 && ny < 8 {
        let n = (ny * 8 + nx) as u8;
        assert(n as int == jump_target(pos as int, dx as int, dy as int));
        let blocked = match board[n as usize] {
            Some(q) => q.color == color,
            None => false,
        };
        if !blocked {
            push_sq(moves, n);
        }
    }
}

/// Pushes every square a sliding ray from `pos` reaches, stopping at
/// the first piece and including its square only for an enemy piece.
fn push_ray(moves: &mut Vec<u8>, board: &Board, pos: u8, dx: i8, dy: i8, color: Color)
    requires
        board@.len() == 64,
        pos < 64,
        valid_dir(dx as int, dy as int),
        forall|t: u8|
            old(moves)@.contains(t) ==> !ray_hits(
                board@,
                file_of(pos as int),
                rank_of(pos as int),
                dx as int,
                dy as int,
                t as int,
            ),
    ensures
        forall|t: u8| #[trigger]
            final(moves)@.contains(t) <==> (old(moves)@.contains(t) || (t < 64 && ray_hits(
                board@,
                file_of(pos as int),
                rank_of(pos as int),
                dx as int,
                dy as int,
                t as int,
            ) && !same_color_at(board@, t as int, color))),
{
    let ghost x0 = file_of(pos as int);
    let ghost y0 = rank_of(pos as int);
    let mut cx: i8 = (pos % 8) as i8;
    let mut cy: i8 = (pos / 8) as i8;
    loop
        invariant
            board@.len() == 64,
            valid_dir(dx as int, dy as int),
            on_board(cx as int, cy as int),
            x0 == file_of(pos as int),
            y0 == rank_of(pos as int),
            forall|t: u8| old(moves)@.contains(t) ==> #[trigger] moves@.contains(t),
            forall|t: u8| #[trigger]
                old(moves)@.contains(t) ==> !ray_hits(board@, x0, y0, dx as int, dy as int, t as int),
            forall|t: u8| #[trigger]
                moves@.contains(t) ==> (old(moves)@.contains(t) || t < 64),
            forall|t: u8| #![trigger moves@.contains(t)] #![trigger ray_hits(board@, x0, y0, dx as int, dy as int, t as int)]
                t < 64 ==> ((ray_hits(board@, x0, y0, dx as int, dy as int, t as int)
                    && !same_color_at(board@, t as int, color)) <==> ((moves@.contains(t)
                    && !old(moves)@.contains(t)) || (ray_hits(
                    board@,
                    cx as int,
                    cy as int,
                    dx as int,
                    dy as int,
                    t as int,
                ) && !same_color_at(board@, t as int, color)))),
        decreases crate::attack::edge_fuel(cx as int, cy as int, dx as int, dy as int),
    {
        let nx = cx + dx;
        let ny = cy + dy;
        if nx < 0 || ny < 0 || nx >= 8 || ny >= 8 {
            proof {
                assert forall|t: u8|
                    !ray_hits(board@, cx as int, cy as int, dx as int, dy as int, t as int) by {
                    assert(!on_board(cx as int + dx as int, cy as int + dy as int));
                };
            }
            return ;
        }
        let n = (ny * 8 + nx) as u8;
        assert(n as int == square_at(nx as int, ny as int));
        proof {
            assert(0 <= n < 64);
            assert forall|t: u8|
                t < 64 implies ray_hits(board@, cx as int, cy as int, dx as int, dy as int, t as int)
                == (t == n || (board@[n as int] is None && ray_hits(
                board@,
                nx as int,
                ny as int,
                dx as int,
                dy as int,
                t as int,
            ))) by {};
        }
        match board[n as usize] {
            Some(q) => {
                if q.color != color {
                    assert(ray_hits(board@, x0, y0, dx as int, dy as int, n as int)
                        && !same_color_at(board@, n as int, color));
                    push_sq(moves, n);
                }
                return ;
            },
            None => {
                assert(ray_hits(board@, x0, y0, dx as int, dy as int, n as int)
                    && !same_color_at(board@, n as int, color));
                push_sq(moves, n);
            },
        }
        cx = nx;
        cy = ny;
    }
}

/// Pseudo-legal pawn moves.
#[verifier::rlimit(60)]
fn pawn_moves(board: &Board, ep: Option<u8>, pos: u8, color: Color) -> (moves: Vec<u8>)
    requires
        board@.len() == 64,
        pos < 64,
    ensures
        forall|t: u8| #[trigger]
            moves@.contains(t) <==> pawn_pseudo(board@, ep, pos as int, t as int, color),
{
    let dir: i16 = if color == Color::White {
        1
    } else {
        -1
    };
    let start: u8 = if color == Color::White {
        1
    } else {
        6
    };
    let mut moves: Vec<u8> = Vec::new();
    let f1 = pos as i16 + 8 * dir;
    if 0 <= f1 && f1 < 64 {
        if board[f1 as usize].is_none() {
            push_sq(&mut moves, f1 as u8);
            if pos / 8 == start {
                let f2 = pos as i16 + 16 * dir;
                if board[f2 as usize].is_none() {
                    push_sq(&mut moves, f2 as u8);
                }
            }
        }
    }
    let fx = (pos % 8) as i16;
    let fy = (pos / 8) as i16;
    let ny = fy + dir;
    // diagonal captures, file -1 then file +1
    if fx - 1 >= 0 && 0 <= ny && ny < 8 {
        let to = (ny * 8 + fx - 1) as u8;
        let take = match board[to as usize] {
            Some(q) => q.color != color,
            None => (match ep {
                Some(e) => e == to,
                None => false,
            }),
        };
        if take {
            push_sq(&mut moves, to);
        }
    }
    if fx + 1 < 8 && 0 <= ny && ny < 8 {
        let to = (ny * 8 + fx + 1) as u8;
        let take = match board[to as usize] {
            Some(q) => q.color != color,
            None => (match ep {
                Some(e) => e == to,
                None => false,
            }),
        };
        if take {
            push_sq(&mut moves, to);
        }
    }
    proof {
        assert forall|t: u8| #[trigger]
            moves@.contains(t) <==> pawn_pseudo(board@, ep, pos as int, t as int, color) by {
            assert(forall|x: int, y: int|
                on_board(x, y) ==> #[trigger] file_of(square_at(x, y)) == x && rank_of(
                    square_at(x, y),
                ) == y && 0 <= square_at(x, y) < 64);
            assert(forall|s: int| 0 <= s < 64 ==> #[trigger] square_at(file_of(s), rank_of(s)) == s);
        };
    }
    moves
}

/// Pseudo-legal knight moves.
fn knight_moves(board: &Board, pos: u8, color: Color) -> (moves: Vec<u8>)
    requires
        board@.len() == 64,
        pos < 64,
    ensures
        forall|t: u8| #[trigger]
            moves@.contains(t) <==> (0 <= t < 64 && knight_jumps(pos as int, t as int)
                && !same_color_at(board@, t as int, color)),
{
    let mut moves: Vec<u8> = Vec::new();
    try_jump(&mut moves, board, pos, 1, 2, color);
    try_jump(&mut moves, board, pos, 2, 1, color);
    try_jump(&mut moves, board, pos, -1, 2, color);
    try_jump(&mut moves, board, pos, -2, 1, color);
    try_jump(&mut moves, board, pos, 1, -2, color);
    try_jump(&mut moves, board, pos, 2, -1, color);
    try_jump(&mut moves, board, pos, -1, -2, color);
    try_jump(&mut moves, board, pos, -2, -1, color);
    proof {
        assert forall|t: u8| #[trigger]
            moves@.contains(t) <==> (0 <= t < 64 && knight_jumps(pos as int, t as int)
                && !same_color_at(board@, t as int, color)) by {
            assert(forall|x: int, y: int|
                on_board(x, y) ==> #[trigger] file_of(square_at(x, y)) == x && rank_of(
                    square_at(x, y),
                ) == y && 0 <= square_at(x, y) < 64);
            assert(forall|s: int| 0 <= s < 64 ==> #[trigger] square_at(file_of(s), rank_of(s)) == s);
        };
    }
    moves
}

/// Pseudo-legal king moves: the eight adjacent squares plus castling.
fn king_moves(state: &GameState, pos: u8, color: Color) -> (moves: Vec<u8>)
    requires
        wf(state@),
        pos < 64,
    ensures
        forall|t: u8| #[trigger]
            moves@.contains(t) <==> ((0 <= t < 64 && king_adjacent(pos as int, t as int)
                && !same_color_at(state@.board, t as int, color)) || castle_pseudo(
                state@,
                pos as int,
                t as int,
                color,
            )),
{
    let mut moves: Vec<u8> = Vec::new();
    try_jump(&mut moves, &state.board, pos, 1, 0, color);
    try_jump(&mut moves, &state.board, pos, -1, 0, color);
    try_jump(&mut moves, &state.board, pos, 0, 1, color);
    try_jump(&mut moves, &state.board, pos, 0, -1, color);
    try_jump(&mut moves, &state.board, pos, 1, 1, color);
    try_jump(&mut moves, &state.board, pos, -1, 1, color);
    try_jump(&mut moves, &state.board, pos, 1, -1, color);
    try_jump(&mut moves, &state.board, pos, -1, -1, color);
    if color == Color::White && pos == 4 {
        if state.castling_rights.white_kingside && state.board[5].is_none()
            && state.board[6].is_none() && !board_attacked(&state.board, 4, Color::Black)
            && !board_attacked(&state.board, 5, Color::Black) && !board_attacked(
            &state.board,
            6,
            Color::Black,
        ) {
            push_sq(&mut moves, 6);
        }
        if state.castling_rights.white_queenside && state.board[1].is_none()
            && state.board[2].is_none() && state.board[3].is_none() && !board_attacked(
            &state.board,
            4,
            Color::Black,
        ) && !board_attacked(&state.board, 3, Color::Black) && !board_attacked(
            &state.board,
            2,
            Color::Black,
        ) {
            push_sq(&mut moves, 2);
        }
    }
    if color == Color::Black && pos == 60 {
        if state.castling_rights.black_kingside && state.board[61].is_none()
            && state.board[62].is_none() && !board_attacked(&state.board, 60, Color::White)
            && !board_attacked(&state.board, 61, Color::White) && !board_attacked(
            &state.board,
            62,
            Color::White,
        ) {
            push_sq(&mut moves, 62);
        }
        if state.castling_rights.black_queenside && state.board[57].is_none()
            && state.board[58].is_none() && state.board[59].is_none() && !board_attacked(
            &state.board,
            60,
            Color::White,
        ) && !board_attacked(&state.board, 59, Color::White) && !board_attacked(
            &state.board,
            58,
            Color::White,
        ) {
            push_sq(&mut moves, 58);
        }
    }
    proof {
        assert forall|t: u8| #[trigger]
            moves@.contains(t) <==> ((0 <= t < 64 && king_adjacent(pos as int, t as int)
                && !same_color_at(state@.board, t as int, color)) || castle_pseudo(
                state@,
                pos as int,
                t as int,
                color,
            )) by {
            assert(forall|x: int, y: int|
                on_board(x, y) ==> #[trigger] file_of(square_at(x, y)) == x && rank_of(
                    square_at(x, y),
                ) == y && 0 <= square_at(x, y) < 64);
            assert(forall|s: int| 0 <= s < 64 ==> #[trigger] square_at(file_of(s), rank_of(s)) == s);
        };
    }
    moves
}

/// Pseudo-legal bishop moves.
fn bishop_moves(board: &Board, pos: u8, color: Color) -> (moves: Vec<u8>)
    requires
        board@.len() == 64,
        pos < 64,
    ensures
        forall|t: u8| #[trigger]
            moves@.contains(t) <==> (0 <= t < 64 && bishop_rays(board@, pos as int, t as int)
                && !same_color_at(board@, t as int, color)),
{
    let ghost x0 = file_of(pos as int);
    let ghost y0 = rank_of(pos as int);
    let mut moves: Vec<u8> = Vec::new();
    push_ray(&mut moves, board, pos, 1, 1, color);
    proof {
        assert forall|t: u8| moves@.contains(t) implies !ray_hits(
            board@,
            x0,
            y0,
            1,
            -1,
            t as int,
        ) by {
            if ray_hits(board@, x0, y0, 1, 1, t as int) {
                lemma_rays_disjoint(board@, x0, y0, 1, 1, 1, -1, t as int);
            }
        };
    }
    push_ray(&mut moves, board, pos, 1, -1, color);
    proof {
        assert forall|t: u8| moves@.contains(t) implies !ray_hits(
            board@,
            x0,
            y0,
            -1,
            1,
            t as int,
        ) by {
            if ray_hits(board@, x0, y0, 1, 1, t as int) {
                lemma_rays_disjoint(board@, x0, y0, 1, 1, -1, 1, t as int);
            }
            if ray_hits(board@, x0, y0, 1, -1, t as int) {
                lemma_rays_disjoint(board@, x0, y0, 1, -1, -1, 1, t as int);
            }
        };
    }
    push_ray(&mut moves, board, pos, -1, 1, color);
    proof {
        assert forall|t: u8| moves@.contains(t) implies !ray_hits(
            board@,
            x0,
            y0,
            -1,
            -1,
            t as int,
        ) by {
            if ray_hits(board@, x0, y0, 1, 1, t as int) {
                lemma_rays_disjoint(board@, x0, y0, 1, 1, -1, -1, t as int);
            }
            if ray_hits(board@, x0, y0, 1, -1, t as int) {
                lemma_rays_disjoint(board@, x0, y0, 1, -1, -1, -1, t as int);
            }
            if ray_hits(board@, x0, y0, -1, 1, t as int) {
                lemma_rays_disjoint(board@, x0, y0, -1, 1, -1, -1, t as int);
            }
        };
    }
    push_ray(&mut moves, board, pos, -1, -1, color);
    moves
}

/// Pseudo-legal rook moves.
fn rook_moves(board: &Board, pos: u8, color: Color) -> (moves: Vec<u8>)
    requires
        board@.len() == 64,
        pos < 64,
    ensures
        forall|t: u8| #[trigger]
            moves@.contains(t) <==> (0 <= t < 64 && rook_rays(board@, pos as int, t as int)
                && !same_color_at(board@, t as int, color)),
{
    let ghost x0 = file_of(pos as int);
    let ghost y0 = rank_of(pos as int);
    let mut moves: Vec<u8> = Vec::new();
    push_ray(&mut moves, board, pos, 1, 0, color);
    proof {
        assert forall|t: u8| moves@.contains(t) implies !ray_hits(
            board@,
            x0,
            y0,
            -1,
            0,
            t as int,
        ) by {
            if ray_hits(board@, x0, y0, 1, 0, t as int) {
                lemma_rays_disjoint(board@, x0, y0, 1, 0, -1, 0, t as int);
            }
        };
    }
    push_ray(&mut moves, board, pos, -1, 0, color);
    proof {
        assert forall|t: u8| moves@.contains(t) implies !ray_hits(
            board@,
            x0,
            y0,
            0,
            1,
            t as int,
        ) by {
            if ray_hits(board@, x0, y0, 1, 0, t as int) {
                lemma_rays_disjoint(board@, x0, y0, 1, 0, 0, 1, t as int);
            }
            if ray_hits(board@, x0, y0, -1, 0, t as int) {
                lemma_rays_disjoint(board@, x0, y0, -1, 0, 0, 1, t as int);
            }
        };
    }
    push_ray(&mut moves, board, pos, 0, 1, color);
    proof {
        assert forall|t: u8| moves@.contains(t) implies !ray_hits(
            board@,
            x0,
            y0,
            0,
            -1,
            t as int,
        ) by {
            if ray_hits(board@, x0, y0, 1, 0, t as int) {
                lemma_rays_disjoint(board@, x0, y0, 1, 0, 0, -1, t as int);
            }
            if ray_hits(board@, x0, y0, -1, 0, t as int) {
                lemma_rays_disjoint(board@, x0, y0, -1, 0, 0, -1, t as int);
            }
            if ray_hits(board@, x0, y0, 0, 1, t as int) {
                lemma_rays_disjoint(board@, x0, y0, 0, 1, 0, -1, t as int);
            }
        };
    }
    push_ray(&mut moves, board, pos, 0, -1, color);
    moves
}

/// Pseudo-legal queen moves: bishop rays then rook rays.
fn queen_moves(board: &Board, pos: u8, color: Color) -> (moves: Vec<u8>)
    requires
        board@.len() == 64,
        pos < 64,
    ensures
        forall|t: u8| #[trigger]
            moves@.contains(t) <==> (0 <= t < 64 && (bishop_rays(board@, pos as int, t as int)
                || rook_rays(board@, pos as int, t as int)) && !same_color_at(
                board@,
                t as int,
                color,
            )),
{
    let ghost x0 = file_of(pos as int);
    let ghost y0 = rank_of(pos as int);
    let mut moves = bishop_moves(board, pos, color);
    proof {
        assert forall|t: u8| moves@.contains(t) implies !ray_hits(
            board@,
            x0,
            y0,
            1,
            0,
            t as int,
        ) by {
            if ray_hits(board@, x0, y0, 1, 1, t as int) {
                lemma_rays_disjoint(board@, x0, y0, 1, 1, 1, 0, t as int);
            }
            if ray_hits(board@, x0, y0, 1, -1, t as int) {
                lemma_rays_disjoint(board@, x0, y0, 1, -1, 1, 0, t as int);
            }
            if ray_hits(board@, x0, y0, -1, 1, t as int) {
                lemma_rays_disjoint(board@, x0, y0, -1, 1, 1, 0, t as int);
            }
            if ray_hits(board@, x0, y0, -1, -1, t as int) {
                lemma_rays_disjoint(board@, x0, y0, -1, -1, 1, 0, t as int);
            }
        };
    }
    push_ray(&mut moves, board, pos, 1, 0, color);
    proof {
        assert forall|t: u8| moves@.contains(t) implies !ray_hits(
            board@,
            x0,
            y0,
            -1,
            0,
            t as int,
        ) by {
            if ray_hits(board@, x0, y0, 1, 1, t as int) {
                lemma_rays_disjoint(board@, x0, y0, 1, 1, -1, 0, t as int);
            }
            if ray_hits(board@, x0, y0, 1, -1, t as int) {
                lemma_rays_disjoint(board@, x0, y0, 1, -1, -1, 0, t as int);
            }
            if ray_hits(board@, x0, y0, -1, 1, t as int) {
                lemma_rays_disjoint(board@, x0, y0, -1, 1, -1, 0, t as int);
            }
            if ray_hits(board@, x0, y0, -1, -1, t as int) {
                lemma_rays_disjoint(board@, x0, y0, -1, -1, -1, 0, t as int);
            }
            if ray_hits(board@, x0, y0, 1, 0, t as int) {
                lemma_rays_disjoint(board@, x0, y0, 1, 0, -1, 0, t as int);
            }
        };
    }
    push_ray(&mut moves, board, pos, -1, 0, color);
    proof {
        assert forall|t: u8| moves@.contains(t) implies !ray_hits(
            board@,
            x0,
            y0,
            0,
            1,
            t as int,
        ) by {
            if ray_hits(board@, x0, y0, 1, 1, t as int) {
                lemma_rays_disjoint(board@, x0, y0, 1, 1, 0, 1, t as int);
            }
            if ray_hits(board@, x0, y0, 1, -1, t as int) {
                lemma_rays_disjoint(board@, x0, y0, 1, -1, 0, 1, t as int);
            }
            if ray_hits(board@, x0, y0, -1, 1, t as int) {
                lemma_rays_disjoint(board@, x0, y0, -1, 1, 0, 1, t as int);
            }
            if ray_hits(board@, x0, y0, -1, -1, t as int) {
                lemma_rays_disjoint(board@, x0, y0, -1, -1, 0, 1, t as int);
            }
            if ray_hits(board@, x0, y0, 1, 0, t as int) {
                lemma_rays_disjoint(board@, x0, y0, 1, 0, 0, 1, t as int);
            }
            if ray_hits(board@, x0, y0, -1, 0, t as int) {
                lemma_rays_disjoint(board@, x0, y0, -1, 0, 0, 1, t as int);
            }
        };
    }
    push_ray(&mut moves, board, pos, 0, 1, color);
    proof {
        assert forall|t: u8| moves@.contains(t) implies !ray_hits(
            board@,
            x0,
            y0,
            0,
            -1,
            t as int,
        ) by {
            if ray_hits(board@, x0, y0, 1, 1, t as int) {
                lemma_rays_disjoint(board@, x0, y0, 1, 1, 0, -1, t as int);
            }
            if ray_hits(board@, x0, y0, 1, -1, t as int) {
                lemma_rays_disjoint(board@, x0, y0, 1, -1, 0, -1, t as int);
            }
            if ray_hits(board@, x0, y0, -1, 1, t as int) {
                lemma_rays_disjoint(board@, x0, y0, -1, 1, 0, -1, t as int);
            }
            if ray_hits(board@, x0, y0, -1, -1, t as int) {
                lemma_rays_disjoint(board@, x0, y0, -1, -1, 0, -1, t as int);
            }
            if ray_hits(board@, x0, y0, 1, 0, t as int) {
                lemma_rays_disjoint(board@, x0, y0, 1, 0, 0, -1, t as int);
            }
            if ray_hits(board@, x0, y0, -1, 0, t as int) {
                lemma_rays_disjoint(board@, x0, y0, -1, 0, 0, -1, t as int);
            }
            if ray_hits(board@, x0, y0, 0, 1, t as int) {
                lemma_rays_disjoint(board@, x0, y0, 0, 1, 0, -1, t as int);
            }
        };
    }
    push_ray(&mut moves, board, pos, 0, -1, color);
    moves
}

/// True iff some piece of `attacker_color` attacks `square`.
pub fn is_square_attacked(state: &GameState, square: u8, attacker_color: Color) -> (r: bool)
    requires
        wf(state@),
        square < 64,
    ensures
        r == is_attacked(state@.board, square as int, attacker_color),
{
    board_attacked(&state.board, square, attacker_color)
}

/// Finds the least square holding a king of color `c`.
pub(crate) fn find_king(board: &Board, c: Color) -> (r: Option<u8>)
    requires
        board@.len() == 64,
    ensures
        match r {
            Some(k) => k < 64 && first_king(board@, c) == Some(k as int),
            None => first_king(board@, c) is None,
        },
{
    let mut i: u8 = 0;
    while i < 64
        invariant
            board@.len() == 64,
            i <= 64,
            first_king(board@, c) == first_king_from(board@, c, i as int),
        decreases 64 - i,
    {
        match board[i as usize] {
            Some(p) => {
                if p.piece_type == PieceType::King && p.color == c {
                    return Some(i);
                }
            },
            None => {},
        }
        i = i + 1;
    }
    None
}

/// Enumerates the squares the piece at `pos` could move to, ignoring
/// whether its own king would be left in check.
pub fn legal_moves_for_piece(state: &GameState, pos: u8) -> (moves: Vec<u8>)
    requires
        wf(state@),
        pos < 64,
    ensures
        forall|t: u8| #[trigger] moves@.contains(t) <==> pseudo_move(state@, pos as int, t as int),
{
    let p = match state.board[pos as usize] {
        None => {
            let moves: Vec<u8> = Vec::new();
            return moves;
        },
        Some(p) => p,
    };
    match p.piece_type {
        PieceType::Pawn => pawn_moves(&state.board, state.en_passant_square, pos, p.color),
        PieceType::Knight => knight_moves(&state.board, pos, p.color),
        PieceType::Bishop => bishop_moves(&state.board, pos, p.color),
        PieceType::Rook => rook_moves(&state.board, pos, p.color),
        PieceType::Queen => queen_moves(&state.board, pos, p.color),
        PieceType::King => king_moves(state, pos, p.color),
    }
}

/// Enumerates the strictly legal moves of the piece at `pos`: the
/// pseudo-legal moves that leave the mover's king unattacked, computed
/// by playing each candidate on a trial board.  Empty when `pos` holds
/// no piece of the side to move.
pub fn legal_moves_for_piece_strict(state: &GameState, pos: u8) -> (moves: Vec<u8>)
    requires
        wf(state@),
        pos < 64,
    ensures
        forall|t: u8| #[trigger] moves@.contains(t) <==> strict_move(state@, pos as int, t as int),
{
    let p = match state.board[pos as usize] {
        None => {
            let moves: Vec<u8> = Vec::new();
            return moves;
        },
        Some(p) => p,
    };
    if !(p.color == state.turn) {
        let moves: Vec<u8> = Vec::new();
        return moves;
    }
    let candidates = legal_moves_for_piece(state, pos);
    let mut result: Vec<u8> = Vec::new();
    let mut i: usize = 0;
    while i < candidates.len()
        invariant
            wf(state@),
            pos < 64,
            state@.board[pos as int] == Some(p),
            p.color == state@.turn,
            forall|t: u8| #[trigger]
                candidates@.contains(t) <==> pseudo_move(state@, pos as int, t as int),
            i <= candidates@.len(),
            forall|t: u8| #[trigger]
                result@.contains(t) <==> (strict_move(state@, pos as int, t as int) && exists|
                    j: int,
                |
                    0 <= j < i && candidates@[j] == t),
        decreases candidates@.len() - i,
    {
        let to = candidates[i];
        proof {
            assert(candidates@.contains(to));
        }
        assert(pseudo_move(state@, pos as int, to as int));
        let mut trial = copy_board(&state.board);
        let moving = trial[pos as usize];
        trial.set(to as usize, moving);
        trial.set(pos as usize, None);
        if p.piece_type == PieceType::Pawn {
            let is_ep = match state.en_passant_square {
                Some(e) => e == to,
                None => false,
            };
            if is_ep {
                let cap: usize = if p.color == Color::White {
                    (to - 8) as usize
                } else {
                    (to + 8) as usize
                };
                trial.set(cap, None);
            }
        }
        assert(trial@ =~= trial_board(state@, pos as int, to as int));
        let mut safe = false;
        match find_king(&trial, p.color) {
            None => {},
            Some(k) => {
                if !board_attacked(&trial, k, opposite_color(p.color)) {
                    safe = true;
                }
            },
        }
        if safe {
            assert(strict_move(state@, pos as int, to as int));
            push_sq(&mut result, to);
        } else {
            assert(!strict_move(state@, pos as int, to as int));
        }
        i = i + 1;
    }
    proof {
        assert forall|t: u8| #[trigger]
            result@.contains(t) <==> strict_move(state@, pos as int, t as int) by {
            if strict_move(state@, pos as int, t as int) {
                assert(pseudo_move(state@, pos as int, t as int));
                assert(candidates@.contains(t));
                let j = choose|j: int| 0 <= j < candidates@.len() && candidates@[j] == t;
                assert(0 <= j < candidates@.len() && candidates@[j] == t);
            }
        };
    }
    result
}

} // verus!
