//! The library's stated laws: soundness and completeness of strict
//! move generation, turn alternation, castling-rights monotonicity and
//! the move-clock laws, proved once and for all over the rule engine's
//! mathematical model.

use vstd::prelude::*;

use crate::attack::{dist, is_attacked, lemma_ray_bounds, piece_attacks, ray_hits};
use crate::board::{file_of, opposite, rank_of, Color, Move, Piece, PieceType};
use crate::engine::{apply_view, is_capture, is_ep_capture};
use crate::moves::{first_king, first_king_from, strict_move, trial_board};
use crate::state::{wf, StateView};

verus! {

/// The state after a whole sequence of moves, applied first to last.
pub open spec fn apply_moves(v: StateView, ms: Seq<Move>) -> StateView
    decreases ms.len(),
{
    if ms.len() == 0 {
        v
    } else {
        apply_moves(
            apply_view(v, ms[0].from as int, ms[0].to as int, ms[0].promotion),
            ms.subrange(1, ms.len() as int),
        )
    }
}

/// Law: legal-move soundness.  Every strictly legal move, played on the
/// trial board (piece moved, en-passant pawn removed), leaves the
/// mover's king present and unattacked by the opposing side.
pub proof fn lemma_legal_move_soundness(v: StateView, from: int, to: int)
    requires
        strict_move(v, from, to),
    ensures
        ({
            let tb = trial_board(v, from, to);
            first_king(tb, v.turn) matches Some(k) && !is_attacked(tb, k, opposite(v.turn))
        }),
{
}

/// Law: legal-move completeness.  In check, a strictly legal move
/// exists if and only if the position is not checkmate.
pub proof fn lemma_legal_move_completeness(v: StateView)
    requires
        crate::engine::in_check(v),
    ensures
        (exists|f: int, t: int| strict_move(v, f, t)) <==> !crate::engine::is_checkmate_spec(v),
{
    if exists|f: int, t: int| strict_move(v, f, t) {
        let (f, t) = choose|f: int, t: int| strict_move(v, f, t);
        assert(!crate::engine::no_legal_moves(v));
    }
}

/// Law: turn alternation.  Applying a legal move always flips the side
/// to move.
pub proof fn lemma_turn_alternation(v: StateView, from: int, to: int, promo: Option<PieceType>)
    requires
        strict_move(v, from, to),
    ensures
        apply_view(v, from, to, promo).turn == opposite(v.turn),
{
}

/// Castling rights never increase across one applied move, legal or
/// not.
pub proof fn lemma_rights_monotonic_step(v: StateView, from: int, to: int, promo: Option<
    PieceType,
>)
    ensures
        apply_view(v, from, to, promo).castling.white_kingside ==> v.castling.white_kingside,
        apply_view(v, from, to, promo).castling.white_queenside ==> v.castling.white_queenside,
        apply_view(v, from, to, promo).castling.black_kingside ==> v.castling.black_kingside,
        apply_view(v, from, to, promo).castling.black_queenside ==> v.castling.black_queenside,
{
}

/// Law: castling-rights monotonicity.  Each castling right is
/// non-increasing over any sequence of applied moves.
pub proof fn lemma_rights_monotonic(v: StateView, ms: Seq<Move>)
    ensures
        apply_moves(v, ms).castling.white_kingside ==> v.castling.white_kingside,
        apply_moves(v, ms).castling.white_queenside ==> v.castling.white_queenside,
        apply_moves(v, ms).castling.black_kingside ==> v.castling.black_kingside,
        apply_moves(v, ms).castling.black_queenside ==> v.castling.black_queenside,
    decreases ms.len(),
{
    if ms.len() > 0 {
        let w = apply_view(v, ms[0].from as int, ms[0].to as int, ms[0].promotion);
        lemma_rights_monotonic_step(v, ms[0].from as int, ms[0].to as int, ms[0].promotion);
        lemma_rights_monotonic(w, ms.subrange(1, ms.len() as int));
    }
}

/// Law: clock laws.  The half-move clock resets to zero exactly on a
/// pawn move or a capture and otherwise increases by one, and the
/// full-move clock increases by one exactly after a Black move.
pub proof fn lemma_clock_laws(v: StateView, from: int, to: int, promo: Option<PieceType>)
    requires
        v.board[from] is Some,
    ensures
        ({
            let w = apply_view(v, from, to, promo);
            let pawn_or_capture = (v.board[from] matches Some(p) && p.piece_type
                == PieceType::Pawn) || is_capture(v, from, to);
            &&& (pawn_or_capture ==> w.halfmove == 0)
            &&& (!pawn_or_capture ==> w.halfmove == v.halfmove + 1)
            &&& w.fullmove == v.fullmove + (if v.board[from] matches Some(p) && p.color
                == Color::Black {
                1int
            } else {
                0int
            })
        }),
{
}

/// Rays over two boards with the same occupancy behave alike.
proof fn lemma_ray_same_occupancy(
    b1: Seq<Option<Piece>>,
    b2: Seq<Option<Piece>>,
    x: int,
    y: int,
    dx: int,
    dy: int,
    target: int,
)
    requires
        forall|i: int| 0 <= i < 64 ==> ((#[trigger] b1[i]) is Some <==> b2[i] is Some),
    ensures
        ray_hits(b1, x, y, dx, dy, target) == ray_hits(b2, x, y, dx, dy, target),
    decreases crate::attack::edge_fuel(x, y, dx, dy),
{
    if crate::attack::valid_dir(dx, dy) {
        let nx = x + dx;
        let ny = y + dy;
        if crate::board::on_board(nx, ny) {
            lemma_ray_same_occupancy(b1, b2, nx, ny, dx, dy, target);
        }
    }
}

/// Attack status is unchanged by swapping the piece on one square for
/// another of the same (non-attacking) color.
proof fn lemma_attack_same_occupancy(
    b1: Seq<Option<Piece>>,
    b2: Seq<Option<Piece>>,
    s: int,
    target: int,
    c: Color,
)
    requires
        b1.len() == 64,
        b2.len() == 64,
        forall|i: int| 0 <= i < 64 && i != s ==> b1[i] == b2[i],
        0 <= s < 64,
        b1[s] matches Some(p) && b2[s] matches Some(q) && p.color == q.color && p.color != c,
    ensures
        is_attacked(b1, target, c) == is_attacked(b2, target, c),
{
    assert(forall|i: int| 0 <= i < 64 ==> ((#[trigger] b1[i]) is Some <==> b2[i] is Some));
    assert forall|i: int|
        0 <= i < 64 && i != s implies (piece_attacks(b1, i, target) == piece_attacks(
        b2,
        i,
        target,
    )) by {
        if b1[i] is Some {
            let fx = file_of(i);
            let fy = rank_of(i);
            lemma_ray_same_occupancy(b1, b2, fx, fy, 1, 1, target);
            lemma_ray_same_occupancy(b1, b2, fx, fy, 1, -1, target);
            lemma_ray_same_occupancy(b1, b2, fx, fy, -1, 1, target);
            lemma_ray_same_occupancy(b1, b2, fx, fy, -1, -1, target);
            lemma_ray_same_occupancy(b1, b2, fx, fy, 1, 0, target);
            lemma_ray_same_occupancy(b1, b2, fx, fy, -1, 0, target);
            lemma_ray_same_occupancy(b1, b2, fx, fy, 0, 1, target);
            lemma_ray_same_occupancy(b1, b2, fx, fy, 0, -1, target);
        }
    };
    if is_attacked(b1, target, c) {
        let i = choose|i: int|
            0 <= i < 64 && ((#[trigger] b1[i]) matches Some(p) && p.color == c && piece_attacks(
                b1,
                i,
                target,
            ));
        assert(i != s);
        assert(b2[i] matches Some(p) && p.color == c && piece_attacks(b2, i, target));
    }
    if is_attacked(b2, target, c) {
        let i = choose|i: int|
            0 <= i < 64 && ((#[trigger] b2[i]) matches Some(p) && p.color == c && piece_attacks(
                b2,
                i,
                target,
            ));
        assert(i != s);
        assert(b1[i] matches Some(p) && p.color == c && piece_attacks(b1, i, target));
    }
}

/// The first king of a color is found on the same square on two boards
/// that differ only at one square holding no king of that color.
proof fn lemma_first_king_agrees(
    b1: Seq<Option<Piece>>,
    b2: Seq<Option<Piece>>,
    c: Color,
    s: int,
    i: int,
)
    requires
        forall|j: int| 0 <= j < 64 && j != s ==> b1[j] == b2[j],
        !(b1[s] matches Some(p) && p.piece_type == PieceType::King && p.color == c),
        !(b2[s] matches Some(p) && p.piece_type == PieceType::King && p.color == c),
        0 <= i,
    ensures
        first_king_from(b1, c, i) == first_king_from(b2, c, i),
    decreases 64 - i,
{
    if i < 64 {
        lemma_first_king_agrees(b1, b2, c, s, i + 1);
    }
}

/// The first-king scan finds the one king of a color.
proof fn lemma_first_king_unique(b: Seq<Option<Piece>>, c: Color, k: int, i: int)
    requires
        0 <= i <= k < 64,
        b[k] matches Some(p) && p.piece_type == PieceType::King && p.color == c,
        forall|j: int|
            i <= j < 64 && j != k ==> !((#[trigger] b[j]) matches Some(q) && q.piece_type
                == PieceType::King && q.color == c),
    ensures
        first_king_from(b, c, i) == Some(k),
    decreases 64 - i,
{
    if i < k {
        lemma_first_king_unique(b, c, k, i + 1);
    }
}

/// Carries a ray over from the post-castling board to the trial board:
/// the rook's landing square only blocks more, and no ray can reach
/// the king's destination through the vacated corner, whose outward
/// extension leaves the board.
proof fn lemma_castle_ray_transfer(
    ab: Seq<Option<Piece>>,
    tb: Seq<Option<Piece>>,
    x: int,
    y: int,
    dx: int,
    dy: int,
    kt: int,
    freed: int,
)
    requires
        crate::attack::valid_dir(dx, dy),
        crate::board::on_board(x, y),
        0 <= kt < 64,
        0 <= freed < 64,
        ray_hits(ab, x, y, dx, dy, kt),
        forall|i: int| 0 <= i < 64 && i != freed ==> ((#[trigger] ab[i]) is None ==> tb[i] is None),
        rank_of(freed) == rank_of(kt),
        (file_of(freed) == 7 && file_of(kt) < 7) || (file_of(freed) == 0 && file_of(kt) > 0),
    ensures
        ray_hits(tb, x, y, dx, dy, kt),
    decreases crate::attack::edge_fuel(x, y, dx, dy),
{
    let nx = x + dx;
    let ny = y + dy;
    let n = crate::board::square_at(nx, ny);
    assert(crate::board::on_board(nx, ny));
    if n != kt {
        assert(ab[n] is None);
        if n == freed {
            lemma_ray_bounds(ab, nx, ny, dx, dy, kt);
            assert(dy == 0);
            assert(false);
        }
        assert(tb[n] is None);
        lemma_castle_ray_transfer(ab, tb, nx, ny, dx, dy, kt, freed);
    }
}

/// Law: legal-move soundness through the full rule engine, for
/// castling.  In a position with a single king of the moving side and
/// the castling rook on its home corner, applying a strictly legal
/// castling move leaves that king on its destination square,
/// unattacked by the opposing side.
pub proof fn lemma_castling_keeps_king_safe(v: StateView, from: int, to: int, promo: Option<
    PieceType,
>)
    requires
        wf(v),
        strict_move(v, from, to),
        v.board[from] matches Some(p) && p.piece_type == PieceType::King && (to == from + 2 || to
            + 2 == from),
        forall|i: int|
            0 <= i < 64 && i != from ==> !((#[trigger] v.board[i]) matches Some(q) && q.piece_type
                == PieceType::King && q.color == v.turn),
        ({
            let rf: int = if to == from + 2 {
                from + 3
            } else {
                from - 4
            };
            v.board[rf] matches Some(r) && r.piece_type == PieceType::Rook && r.color == v.turn
        }),
    ensures
        ({
            let ab = apply_view(v, from, to, promo).board;
            first_king(ab, v.turn) == Some(to) && !is_attacked(ab, to, opposite(v.turn))
        }),
{
    let p = v.board[from]->0;
    let c = v.turn;
    let tb = trial_board(v, from, to);
    let ab = apply_view(v, from, to, promo).board;
    let rf: int = if to == from + 2 {
        from + 3
    } else {
        from - 4
    };
    let rt: int = if to == from + 2 {
        from + 1
    } else {
        from - 1
    };
    assert(from == 4 || from == 60);
    assert(to == 6 || to == 2 || to == 62 || to == 58);
    assert(ab =~= v.board.update(rt, v.board[rf]).update(rf, None).update(
        to,
        v.board[from],
    ).update(from, None));
    assert(ab[to] matches Some(q) && q.piece_type == PieceType::King && q.color == c);
    assert forall|j: int|
        0 <= j < 64 && j != to implies !((#[trigger] ab[j]) matches Some(q) && q.piece_type
        == PieceType::King && q.color == c) by {};
    lemma_first_king_unique(ab, c, to, 0);
    assert forall|j: int|
        0 <= j < 64 && j != to implies !((#[trigger] tb[j]) matches Some(q) && q.piece_type
        == PieceType::King && q.color == c) by {};
    lemma_first_king_unique(tb, c, to, 0);
    assert(!is_attacked(tb, to, opposite(c)));
    if is_attacked(ab, to, opposite(c)) {
        let a = choose|a: int|
            0 <= a < 64 && ((#[trigger] ab[a]) matches Some(q) && q.color == opposite(c)
                && piece_attacks(ab, a, to));
        assert(a != from && a != rf && a != rt && a != to);
        assert(tb[a] == ab[a]);
        let q = ab[a]->0;
        if q.piece_type == PieceType::Bishop || q.piece_type == PieceType::Rook || q.piece_type
            == PieceType::Queen {
            let fx = file_of(a);
            let fy = rank_of(a);
            assert forall|ddx: int, ddy: int|
                crate::attack::valid_dir(ddx, ddy) && ray_hits(ab, fx, fy, ddx, ddy, to) implies
                #[trigger] ray_hits(tb, fx, fy, ddx, ddy, to) by {
                assert(forall|i: int|
                    0 <= i < 64 && i != rf ==> ((#[trigger] ab[i]) is None ==> tb[i] is None));
                lemma_castle_ray_transfer(ab, tb, fx, fy, ddx, ddy, to, rf);
            };
            assert(piece_attacks(tb, a, to));
        } else {
            assert(piece_attacks(tb, a, to));
        }
        assert(is_attacked(tb, to, opposite(c)));
    }
}

/// A pseudo-legal move onto an occupied square attacks that square.
proof fn lemma_capture_is_attack(v: StateView, from: int, to: int)
    requires
        crate::moves::pseudo_move(v, from, to),
        v.board[to] is Some,
    ensures
        piece_attacks(v.board, from, to),
{
}

/// Law: king preservation.  In a position with exactly one king per
/// side, the castling rook on its corner when castling, a real pawn
/// behind the en-passant target when capturing en passant, and the
/// opposing king not attacked (as after any legal move), applying a
/// strictly legal move leaves exactly one king per side: the opponent's
/// untouched, the mover's on its own square — or on `to` when the king
/// itself moved.
pub proof fn lemma_kings_preserved(
    v: StateView,
    from: int,
    to: int,
    promo: Option<PieceType>,
    km: int,
    kk: int,
)
    requires
        wf(v),
        strict_move(v, from, to),
        (promo matches Some(k) ==> k != PieceType::King && k != PieceType::Pawn),
        0 <= km < 64,
        v.board[km] matches Some(q) && q.piece_type == PieceType::King && q.color == v.turn,
        forall|i: int|
            0 <= i < 64 && i != km ==> !((#[trigger] v.board[i]) matches Some(q) && q.piece_type
                == PieceType::King && q.color == v.turn),
        0 <= kk < 64,
        v.board[kk] matches Some(q) && q.piece_type == PieceType::King && q.color == opposite(
            v.turn,
        ),
        forall|i: int|
            0 <= i < 64 && i != kk ==> !((#[trigger] v.board[i]) matches Some(q) && q.piece_type
                == PieceType::King && q.color == opposite(v.turn)),
        !is_attacked(v.board, kk, v.turn),
        (v.board[from] matches Some(p) && p.piece_type == PieceType::King && (to == from + 2 || to
            + 2 == from)) ==> ({
            let rf: int = if to == from + 2 {
                from + 3
            } else {
                from - 4
            };
            v.board[rf] matches Some(r) && r.piece_type == PieceType::Rook && r.color == v.turn
        }),
        is_ep_capture(v, from, to) ==> ({
            let cap: int = if v.turn == Color::White {
                to - 8
            } else {
                to + 8
            };
            v.board[cap] matches Some(q) && q.piece_type == PieceType::Pawn
        }),
    ensures
        ({
            let ab = apply_view(v, from, to, promo).board;
            let km2: int = if from == km {
                to
            } else {
                km
            };
            &&& ab[kk] == v.board[kk]
            &&& (forall|i: int|
                0 <= i < 64 && i != kk ==> !((#[trigger] ab[i]) matches Some(q) && q.piece_type
                    == PieceType::King && q.color == opposite(v.turn)))
            &&& (ab[km2] matches Some(q) && q.piece_type == PieceType::King && q.color == v.turn)
            &&& (forall|i: int|
                0 <= i < 64 && i != km2 ==> !((#[trigger] ab[i]) matches Some(q) && q.piece_type
                    == PieceType::King && q.color == v.turn))
        }),
{
    let p = v.board[from]->0;
    let ab = apply_view(v, from, to, promo).board;
    assert(p.color == v.turn);
    if v.board[to] is Some {
        lemma_capture_is_attack(v, from, to);
        assert(to != kk);
    }
    assert(from != kk);
}

/// Law: legal-move soundness through the full rule engine, for every
/// non-castling move.  Applying a strictly legal move — including
/// promotion and en-passant capture — leaves the mover's king present
/// and unattacked in the resulting state.
pub proof fn lemma_apply_keeps_king_safe(v: StateView, from: int, to: int, promo: Option<
    PieceType,
>)
    requires
        wf(v),
        strict_move(v, from, to),
        (promo matches Some(k) ==> k != PieceType::King && k != PieceType::Pawn),
        !(v.board[from] matches Some(p) && p.piece_type == PieceType::King && (to == from + 2 || to
            + 2 == from)),
        is_ep_capture(v, from, to) ==> dist(file_of(from), file_of(to)) == 1,
    ensures
        ({
            let ab = apply_view(v, from, to, promo).board;
            first_king(ab, v.turn) matches Some(k) && !is_attacked(ab, k, opposite(v.turn))
        }),
{
    let p = v.board[from]->0;
    let tb = trial_board(v, from, to);
    let ab = apply_view(v, from, to, promo).board;
    lemma_legal_move_soundness(v, from, to);
    let promotes = p.piece_type == PieceType::Pawn && rank_of(to) == (
    if p.color == Color::White {
        7int
    } else {
        0int
    });
    if promotes {
        assert(forall|i: int| 0 <= i < 64 && i != to ==> ab[i] == tb[i]);
        assert(tb[to] matches Some(q) && q.piece_type == PieceType::Pawn && q.color == p.color);
        assert(ab[to] matches Some(q) && q.piece_type != PieceType::King && q.piece_type
            != PieceType::Pawn && q.color == p.color);
        lemma_first_king_agrees(tb, ab, v.turn, to, 0);
        let k = first_king(tb, v.turn)->0;
        lemma_attack_same_occupancy(tb, ab, to, k, opposite(v.turn));
    } else {
        assert(ab =~= tb);
    }
}

} // verus!
