//! The rule engine: applying a move (castling rook shuffle, en-passant
//! capture, promotion, clock updates, castling-right revocation, turn
//! flip, repetition history) and the terminal predicates (check,
//! checkmate, stalemate, fifty-move, threefold repetition,
//! insufficient material).

use vstd::prelude::*;

use crate::attack::{dist, is_attacked};
use crate::board::{
    file_of, opposite, opposite_color, rank_of, CastlingRights, Color, Piece, PieceType,
};
use crate::moves::{first_king, legal_moves_for_piece_strict, pseudo_move, strict_move};
use crate::state::{fingerprint_of, wf, FingerprintView, GameState, StateView};

verus! {

broadcast use crate::state::lemma_state_view, crate::state::lemma_fingerprint_view;

/// The castling rights after a move of `p` from `from` to `to`: a right
/// is revoked when its king moves, when the rook departs its home
/// corner, or — following the standard rule — when any move lands on
/// that corner (capturing the rook that kept the right alive).
pub open spec fn rights_after(r: CastlingRights, p: Piece, from: int, to: int) -> CastlingRights {
    CastlingRights {
        white_kingside: r.white_kingside && !(p.piece_type == PieceType::King && p.color
            == Color::White) && !(p.piece_type == PieceType::Rook && from == 7) && to != 7,
        white_queenside: r.white_queenside && !(p.piece_type == PieceType::King && p.color
            == Color::White) && !(p.piece_type == PieceType::Rook && from == 0) && to != 0,
        black_kingside: r.black_kingside && !(p.piece_type == PieceType::King && p.color
            == Color::Black) && !(p.piece_type == PieceType::Rook && from == 63) && to != 63,
        black_queenside: r.black_queenside && !(p.piece_type == PieceType::King && p.color
            == Color::Black) && !(p.piece_type == PieceType::Rook && from == 56) && to != 56,
    }
}

/// The promotion choice, defaulting to a queen.
pub open spec fn promo_kind(promo: Option<PieceType>) -> PieceType {
    match promo {
        Some(k) => k,
        None => PieceType::Queen,
    }
}

/// The move is a pawn double-step.
pub open spec fn is_double_step(v: StateView, from: int, to: int) -> bool {
    v.board[from] matches Some(p) && p.piece_type == PieceType::Pawn && dist(
        rank_of(from),
        rank_of(to),
    ) == 2
}

/// The move captures en passant: a pawn's single-step onto the stored
/// en-passant target.
pub open spec fn is_ep_capture(v: StateView, from: int, to: int) -> bool {
    v.board[from] matches Some(p) && p.piece_type == PieceType::Pawn && !is_double_step(v, from, to)
        && v.en_passant == Some(to as u8)
}

/// The move captures something: the destination is occupied, or it is
/// an en-passant capture.
pub open spec fn is_capture(v: StateView, from: int, to: int) -> bool {
    v.board[to] is Some || is_ep_capture(v, from, to)
}

/// The complete successor state of a move: castling rook relocation,
/// right revocation, en-passant bookkeeping and capture, the piece
/// move itself, promotion, clock updates, turn flip, and the appended
/// position fingerprint.
pub open spec fn apply_view(v: StateView, from: int, to: int, promo: Option<PieceType>) -> StateView {
    match v.board[from] {
        None => v,
        Some(p) => {
            let b1 = if p.piece_type == PieceType::King && to == from + 2 {
                let rf: int = if p.color == Color::White {
                    7
                } else {
                    63
                };
                let rt: int = if p.color == Color::White {
                    5
                } else {
                    61
                };
                v.board.update(rt, v.board[rf]).update(rf, None)
            } else if p.piece_type == PieceType::King && to + 2 == from {
                let rf: int = if p.color == Color::White {
                    0
                } else {
                    56
                };
                let rt: int = if p.color == Color::White {
                    3
                } else {
                    59
                };
                v.board.update(rt, v.board[rf]).update(rf, None)
            } else {
                v.board
            };
            let cr = rights_after(v.castling, p, from, to);
            let dbl = is_double_step(v, from, to);
            let ep_cap = is_ep_capture(v, from, to);
            let new_ep: Option<u8> = if dbl {
                Some(((from + to) / 2) as u8)
            } else {
                None
            };
            let b2 = if ep_cap {
                b1.update(
                    if p.color == Color::White {
                        to - 8
                    } else {
                        to + 8
                    },
                    None,
                )
            } else {
                b1
            };
            let b3 = b2.update(to, b2[from]).update(from, None);
            let b4 = match b3[to] {
                Some(q) => if q.piece_type == PieceType::Pawn && rank_of(to) == (
                if q.color == Color::White {
                    7int
                } else {
                    0int
                }) {
                    b3.update(to, Some(Piece { piece_type: promo_kind(promo), color: q.color }))
                } else {
                    b3
                },
                None => b3,
            };
            let hm: int = if p.piece_type == PieceType::Pawn || is_capture(v, from, to) {
                0
            } else {
                v.halfmove + 1
            };
            let fm: int = if p.color == Color::Black {
                v.fullmove + 1
            } else {
                v.fullmove
            };
            let s1 = StateView {
                board: b4,
                turn: opposite(v.turn),
                castling: cr,
                en_passant: new_ep,
                halfmove: hm,
                fullmove: fm,
                code: v.code,
                code_text: v.code_text,
                history: v.history,
            };
            StateView {
                board: b4,
                turn: opposite(v.turn),
                castling: cr,
                en_passant: new_ep,
                halfmove: hm,
                fullmove: fm,
                code: v.code,
                code_text: v.code_text,
                history: v.history.push(fingerprint_of(s1)),
            }
        },
    }
}

/// The side to move is in check: its (first) king is attacked by the
/// opposing side.
pub open spec fn in_check(v: StateView) -> bool {
    match first_king(v.board, v.turn) {
        Some(k) => is_attacked(v.board, k, opposite(v.turn)),
        None => false,
    }
}

/// The side to move has no strictly legal move at all.
pub open spec fn no_legal_moves(v: StateView) -> bool {
    forall|f: int, t: int| !#[trigger] strict_move(v, f, t)
}

/// Checkmate: in check with no legal move.
pub open spec fn is_checkmate_spec(v: StateView) -> bool {
    in_check(v) && no_legal_moves(v)
}

/// Stalemate: not in check, yet no legal move.
pub open spec fn is_stalemate_spec(v: StateView) -> bool {
    !in_check(v) && no_legal_moves(v)
}

/// How many recorded fingerprints equal `fp`.
pub open spec fn count_matches(h: Seq<FingerprintView>, fp: FingerprintView) -> int
    decreases h.len(),
{
    if h.len() == 0 {
        0
    } else {
        count_matches(h.drop_last(), fp) + if h.last() == fp {
            1int
        } else {
            0int
        }
    }
}

/// Threefold repetition: the current position's fingerprint occurs at
/// least three times in the history.
pub open spec fn is_threefold_spec(v: StateView) -> bool {
    count_matches(v.history, fingerprint_of(v)) >= 3
}

/// The square holds a piece other than a king.
pub open spec fn nonking_at(board: Seq<Option<Piece>>, i: int) -> bool {
    board[i] matches Some(p) && p.piece_type != PieceType::King
}

/// The square holds a minor piece (bishop or knight).
pub open spec fn minor_at(board: Seq<Option<Piece>>, i: int) -> bool {
    board[i] matches Some(p) && (p.piece_type == PieceType::Bishop || p.piece_type
        == PieceType::Knight)
}

/// The shade of a square (light or dark).
pub open spec fn square_shade(i: int) -> int {
    (file_of(i) + rank_of(i)) % 2
}

/// Two squares hold bishops of opposite colors standing on same-shade
/// squares.
pub open spec fn same_shade_bishops(board: Seq<Option<Piece>>, j: int, k: int) -> bool {
    board[j] matches Some(p) && board[k] matches Some(q) && p.piece_type == PieceType::Bishop
        && q.piece_type == PieceType::Bishop && p.color != q.color && square_shade(j)
        == square_shade(k)
}

/// Insufficient material to mate: K vs K, K+minor vs K, or K+B vs K+B
/// with both bishops on squares of the same shade.
pub open spec fn insufficient_material(board: Seq<Option<Piece>>) -> bool {
    ||| (forall|i: int| 0 <= i < 64 ==> !#[trigger] nonking_at(board, i))
    ||| (exists|j: int|
        0 <= j < 64 && #[trigger] minor_at(board, j) && (forall|i: int|
            0 <= i < 64 && i != j ==> !#[trigger] nonking_at(board, i)))
    ||| (exists|j: int, k: int|
        0 <= j < 64 && 0 <= k < 64 && j != k && #[trigger] same_shade_bishops(board, j, k) && (
        forall|i: int| 0 <= i < 64 && i != j && i != k ==> !#[trigger] nonking_at(board, i)))
}

impl GameState {
    /// Applies a strictly legal move: relocates the castling rook,
    /// revokes castling rights, performs en-passant bookkeeping and
    /// capture, moves the piece, promotes a pawn reaching the last
    /// rank, updates the clocks, flips the turn and appends the new
    /// position's fingerprint to the repetition history.
    #[verifier::rlimit(100)]
    pub fn move_piece(&mut self, from: u8, to: u8, promotion: Option<PieceType>)
        requires
            wf(old(self)@),
            strict_move(old(self)@, from as int, to as int),
            (promotion matches Some(k) ==> k != PieceType::King && k != PieceType::Pawn),
            old(self)@.halfmove < u32::MAX,
            old(self)@.fullmove < u32::MAX,
        ensures
            final(self)@ == apply_view(old(self)@, from as int, to as int, promotion),
            wf(final(self)@),
    {
        let ghost v = self@;
        assert(pseudo_move(v, from as int, to as int));
        let p = self.board[from as usize].unwrap();
        // 1. castling: the king moves two squares, so the rook jumps over
        if p.piece_type == PieceType::King {
            if to == from + 2 {
                let (rf, rt): (usize, usize) = match p.color {
                    Color::White => (7, 5),
                    Color::Black => (63, 61),
                };
                let r = self.board[rf];
                self.board.set(rt, r);
                self.board.set(rf, None);
            }
            if to + 2 == from {
                let (rf, rt): (usize, usize) = match p.color {
                    Color::White => (0, 3),
                    Color::Black => (56, 59),
                };
                let r = self.board[rf];
                self.board.set(rt, r);
                self.board.set(rf, None);
            }
        }
        // 2-3. castling-right revocation
        let mut cr = self.castling_rights;
        if p.piece_type == PieceType::King {
            match p.color {
                Color::White => {
                    cr.white_kingside = false;
                    cr.white_queenside = false;
                },
                Color::Black => {
                    cr.black_kingside = false;
                    cr.black_queenside = false;
                },
            }
        }
        if p.piece_type == PieceType::Rook {
            if from == 0 {
                cr.white_queenside = false;
            }
            if from == 7 {
                cr.white_kingside = false;
            }
            if from == 56 {
                cr.black_queenside = false;
            }
            if from == 63 {
                cr.black_kingside = false;
            }
        }
        if to == 0 {
            cr.white_queenside = false;
        }
        if to == 7 {
            cr.white_kingside = false;
        }
        if to == 56 {
            cr.black_queenside = false;
        }
        if to == 63 {
            cr.black_kingside = false;
        }
        self.castling_rights = cr;
        assert(cr == rights_after(v.castling, p, from as int, to as int));
        // the castling shuffle never touches the king's destination
        assert(self.board@[to as int] == v.board[to as int]);
        let mut captured = self.board[to as usize].is_some();
        // 4. en-passant bookkeeping and capture
        if p.piece_type == PieceType::Pawn {
            let rf8 = from / 8;
            let rt8 = to / 8;
            if rf8 + 2 == rt8 || rt8 + 2 == rf8 {
                self.en_passant_square = Some((from + to) / 2);
            } else {
                let ep_hit = match self.en_passant_square {
                    Some(e) => e == to,
                    None => false,
                };
                if ep_hit {
                    captured = true;
                    let cap: usize = if p.color == Color::White {
                        (to - 8) as usize
                    } else {
                        (to + 8) as usize
                    };
                    self.board.set(cap, None);
                }
                self.en_passant_square = None;
            }
        } else {
            self.en_passant_square = None;
        }
        assert(captured == is_capture(v, from as int, to as int));
        // 5. move the piece
        let moving = self.board[from as usize];
        self.board.set(to as usize, moving);
        self.board.set(from as usize, None);
        // 6. promotion
        match self.board[to as usize] {
            Some(q) => {
                if q.piece_type == PieceType::Pawn {
                    let last: u8 = if q.color == Color::White {
                        7
                    } else {
                        0
                    };
                    if to / 8 == last {
                        let kind = match promotion {
                            Some(k) => k,
                            None => PieceType::Queen,
                        };
                        self.board.set(
                            to as usize,
                            Some(Piece { piece_type: kind, color: q.color }),
                        );
                    }
                }
            },
            None => {},
        }
        // 7. clocks
        if p.piece_type == PieceType::Pawn || captured {
            self.halfmove_clock = 0;
        } else {
            self.halfmove_clock = self.halfmove_clock + 1;
        }
        if p.color == Color::Black {
            self.fullmove_clock = self.fullmove_clock + 1;
        }
        // 8. flip the turn
        self.turn = opposite_color(self.turn);
        // 9. record the position fingerprint
        let fp = self.make_fingerprint();
        self.history.push(fp);
        proof {
            let va = apply_view(v, from as int, to as int, promotion);
            assert(self@.board =~= va.board);
            assert(self@.history =~= va.history);
            assert(self@ =~~= va);
        }
    }

    /// Returns true iff the current player is in check.
    pub fn is_in_check(&self) -> (r: bool)
        requires
            wf(self@),
        ensures
            r == in_check(self@),
    {
        match crate::moves::find_king(&self.board, self.turn) {
            None => false,
            Some(k) => crate::attack::board_attacked(&self.board, k, opposite_color(self.turn)),
        }
    }

    /// Returns true iff the current player is checkmated: in check with
    /// no legal move.
    pub fn is_checkmate(&self) -> (r: bool)
        requires
            wf(self@),
        ensures
            r == is_checkmate_spec(self@),
    {
        if !self.is_in_check() {
            return false;
        }
        self.no_moves_available()
    }

    /// Returns true iff the current player is stalemated: not in check,
    /// yet with no legal move.
    pub fn is_stalemate(&self) -> (r: bool)
        requires
            wf(self@),
        ensures
            r == is_stalemate_spec(self@),
    {
        if self.is_in_check() {
            return false;
        }
        self.no_moves_available()
    }

    /// Scans every square for a strictly legal move of the side to
    /// move.
    fn no_moves_available(&self) -> (r: bool)
        requires
            wf(self@),
        ensures
            r == no_legal_moves(self@),
    {
        let mut idx: u8 = 0;
        while idx < 64
            invariant
                wf(self@),
                idx <= 64,
                forall|f: int, t: int| 0 <= f < idx ==> !#[trigger] strict_move(self@, f, t),
            decreases 64 - idx,
        {
            let ms = legal_moves_for_piece_strict(self, idx);
            if ms.len() > 0 {
                let w = ms[0];
                proof {
                    assert(ms@.contains(w));
                }
                return false;
            }
            proof {
                assert forall|t: int| !strict_move(self@, idx as int, t) by {
                    if 0 <= t < 64 {
                        assert(!ms@.contains(t as u8));
                    }
                };
            }
            idx = idx + 1;
        }
        true
    }

    /// Returns true iff the fifty-move rule allows a draw claim: at
    /// least 100 half-moves without a pawn move or capture.
    pub fn is_fifty_move_draw(&self) -> (r: bool)
        ensures
            r == (self@.halfmove >= 100),
    {
        self.halfmove_clock >= 100
    }

    /// Returns true iff the current position has occurred at least
    /// three times.
    pub fn is_threefold_repetition(&self) -> (r: bool)
        requires
            wf(self@),
        ensures
            r == is_threefold_spec(self@),
    {
        let fp = self.make_fingerprint();
        let mut count: usize = 0;
        let mut i: usize = 0;
        while i < self.history.len()
            invariant
                fp@ == fingerprint_of(self@),
                i <= self@.history.len(),
                count <= i,
                self@.history.len() == self.history@.len(),
                count == count_matches(self@.history.take(i as int), fp@),
            decreases self@.history.len() - i,
        {
            let ghost pre = self@.history.take(i as int);
            if crate::state::fingerprint_eq(&self.history[i], &fp) {
                count = count + 1;
            }
            proof {
                let cur = self@.history.take(i as int + 1);
                assert(cur.drop_last() =~= pre);
                assert(cur.last() == self@.history[i as int]);
                assert(self@.history[i as int] == self.history@[i as int]@);
            }
            i = i + 1;
        }
        proof {
            assert(self@.history.take(self@.history.len() as int) =~= self@.history);
        }
        count >= 3
    }

    /// Returns true iff neither side retains mating material: K vs K,
    /// K+minor vs K, or K+B vs K+B with both bishops on the same shade.
    pub fn is_insufficient_material(&self) -> (r: bool)
        requires
            wf(self@),
        ensures
            r == insufficient_material(self@.board),
    {
        let mut found: Vec<u8> = Vec::new();
        let mut i: u8 = 0;
        while i < 64
            invariant
                wf(self@),
                i <= 64,
                forall|t: u8| #[trigger]
                    found@.contains(t) <==> (t < i && nonking_at(self@.board, t as int)),
                forall|a: int, b: int|
                    0 <= a < b < found@.len() ==> #[trigger] found@[a] < #[trigger] found@[b],
                forall|a: int| 0 <= a < found@.len() ==> #[trigger] found@[a] < i,
            decreases 64 - i,
        {
            let keep = match self.board[i as usize] {
                Some(p) => !(p.piece_type == PieceType::King),
                None => false,
            };
            if keep {
                proof {
                    crate::moves::lemma_push_contains_all(found@, i);
                }
                found.push(i);
            }
            i = i + 1;
        }
        if found.len() == 0 {
            assert(forall|i: int| 0 <= i < 64 ==> !#[trigger] nonking_at(self@.board, i)) by {
                assert forall|i: int| 0 <= i < 64 implies !nonking_at(self@.board, i) by {
                    if nonking_at(self@.board, i) {
                        assert(found@.contains(i as u8));
                    }
                };
            };
            return true;
        }
        if found.len() == 1 {
            let j = found[0];
            proof {
                assert(found@.contains(j));
            }
            assert(forall|i: int|
                0 <= i < 64 && i != j as int ==> !#[trigger] nonking_at(self@.board, i)) by {
                assert forall|i: int|
                    0 <= i < 64 && i != j as int implies !nonking_at(self@.board, i) by {
                    if nonking_at(self@.board, i) {
                        assert(found@.contains(i as u8));
                        let a = choose|a: int| 0 <= a < found@.len() && found@[a] == i as u8;
                        assert(found@[a] == found@[0]);
                    }
                };
            };
            let is_minor = match self.board[j as usize] {
                Some(p) => p.piece_type == PieceType::Bishop || p.piece_type == PieceType::Knight,
                None => false,
            };
            if is_minor {
                assert(minor_at(self@.board, j as int));
                return true;
            }
            proof {
                assert forall|jj: int|
                    !(0 <= jj < 64 && #[trigger] minor_at(self@.board, jj) && (forall|i: int|
                        0 <= i < 64 && i != jj ==> !#[trigger] nonking_at(self@.board, i))) by {
                    if 0 <= jj < 64 && minor_at(self@.board, jj) {
                        if jj != j as int {
                            assert(nonking_at(self@.board, j as int));
                        }
                    }
                };
                assert forall|jj: int, kk: int|
                    !(0 <= jj < 64 && 0 <= kk < 64 && jj != kk && #[trigger] same_shade_bishops(
                        self@.board,
                        jj,
                        kk,
                    ) && (forall|i: int|
                        0 <= i < 64 && i != jj && i != kk ==> !#[trigger] nonking_at(
                            self@.board,
                            i,
                        ))) by {
                    if 0 <= jj < 64 && 0 <= kk < 64 && jj != kk && same_shade_bishops(
                        self@.board,
                        jj,
                        kk,
                    ) {
                        if jj != j as int && kk != j as int {
                            assert(nonking_at(self@.board, j as int));
                        } else {
                            assert(nonking_at(self@.board, jj) && nonking_at(self@.board, kk));
                            assert(found@.contains(jj as u8) && found@.contains(kk as u8));
                            let a = choose|a: int| 0 <= a < found@.len() && found@[a] == jj as u8;
                            let b = choose|b: int| 0 <= b < found@.len() && found@[b] == kk as u8;
                            assert(found@[a] == found@[0] && found@[b] == found@[0]);
                        }
                    }
                };
            }
            return false;
        }
        if found.len() == 2 {
            let j = found[0];
            let k = found[1];
            proof {
                assert(found@.contains(j) && found@.contains(k));
                assert(found@[0] < found@[1]);
            }
            assert(forall|i: int|
                0 <= i < 64 && i != j as int && i != k as int ==> !#[trigger] nonking_at(
                    self@.board,
                    i,
                )) by {
                assert forall|i: int|
                    0 <= i < 64 && i != j as int && i != k as int implies !nonking_at(
                    self@.board,
                    i,
                ) by {
                    if nonking_at(self@.board, i) {
                        assert(found@.contains(i as u8));
                        let a = choose|a: int| 0 <= a < found@.len() && found@[a] == i as u8;
                        assert(a == 0 || a == 1);
                    }
                };
            };
            let ok = match (self.board[j as usize], self.board[k as usize]) {
                (Some(pj), Some(pk)) => pj.piece_type == PieceType::Bishop && pk.piece_type
                    == PieceType::Bishop && pj.color != pk.color && (j % 8 + j / 8) % 2 == (k % 8
                    + k / 8) % 2,
                _ => false,
            };
            if ok {
                assert(same_shade_bishops(self@.board, j as int, k as int));
                return true;
            }
            proof {
                assert forall|jj: int|
                    !(0 <= jj < 64 && #[trigger] minor_at(self@.board, jj) && (forall|i: int|
                        0 <= i < 64 && i != jj ==> !#[trigger] nonking_at(self@.board, i))) by {
                    if 0 <= jj < 64 && minor_at(self@.board, jj) {
                        if jj != j as int {
                            assert(nonking_at(self@.board, j as int));
                        } else {
                            assert(nonking_at(self@.board, k as int));
                        }
                    }
                };
                assert forall|jj: int, kk: int|
                    !(0 <= jj < 64 && 0 <= kk < 64 && jj != kk && #[trigger] same_shade_bishops(
                        self@.board,
                        jj,
                        kk,
                    ) && (forall|i: int|
                        0 <= i < 64 && i != jj && i != kk ==> !#[trigger] nonking_at(
                            self@.board,
                            i,
                        ))) by {
                    if 0 <= jj < 64 && 0 <= kk < 64 && jj != kk && same_shade_bishops(
                        self@.board,
                        jj,
                        kk,
                    ) && (forall|i: int|
                        0 <= i < 64 && i != jj && i != kk ==> !#[trigger] nonking_at(
                            self@.board,
                            i,
                        )) {
                        assert(jj == j as int || jj == k as int) by {
                            if jj != j as int && jj != k as int {
                                assert(nonking_at(self@.board, jj));
                            }
                        };
                        assert(kk == j as int || kk == k as int) by {
                            if kk != j as int && kk != k as int {
                                assert(nonking_at(self@.board, kk));
                            }
                        };
                        assert(same_shade_bishops(self@.board, j as int, k as int));
                    }
                };
            }
            return false;
        }
        // three or more non-king pieces: never insufficient
        let j = found[0];
        let k = found[1];
        let l = found[2];
        proof {
            assert(found@.contains(j) && found@.contains(k) && found@.contains(l));
            assert(found@[0] < found@[1] && found@[1] < found@[2]);
            assert forall|jj: int, kk: int|
                !(0 <= jj < 64 && 0 <= kk < 64 && jj != kk && #[trigger] same_shade_bishops(
                    self@.board,
                    jj,
                    kk,
                ) && (forall|i: int|
                    0 <= i < 64 && i != jj && i != kk ==> !#[trigger] nonking_at(
                        self@.board,
                        i,
                    ))) by {
                if 0 <= jj < 64 && 0 <= kk < 64 && jj != kk && same_shade_bishops(
                    self@.board,
                    jj,
                    kk,
                ) && (forall|i: int|
                    0 <= i < 64 && i != jj && i != kk ==> !#[trigger] nonking_at(self@.board, i)) {
                    if j as int != jj && j as int != kk {
                        assert(nonking_at(self@.board, j as int));
                    } else if k as int != jj && k as int != kk {
                        assert(nonking_at(self@.board, k as int));
                    } else {
                        assert(nonking_at(self@.board, l as int));
                    }
                }
            };
            assert forall|jj: int|
                !(0 <= jj < 64 && #[trigger] minor_at(self@.board, jj) && (forall|i: int|
                    0 <= i < 64 && i != jj ==> !#[trigger] nonking_at(self@.board, i))) by {
                if 0 <= jj < 64 && minor_at(self@.board, jj) {
                    if jj != j as int {
                        assert(nonking_at(self@.board, j as int));
                    } else {
                        assert(nonking_at(self@.board, k as int));
                    }
                }
            };
            assert(nonking_at(self@.board, j as int));
        }
        false
    }
}

} // verus!
