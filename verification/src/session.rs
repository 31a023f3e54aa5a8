//! The per-connection protocol state machine: instruction dispatch,
//! the per-client selection cursor, color authorization, the legality
//! gate in front of the rule engine, and snapshot assembly.

use vstd::prelude::*;

use crate::board::{CastlingRights, Color, Piece, PieceType};
use crate::engine::{
    apply_view, in_check, insufficient_material, is_checkmate_spec, is_stalemate_spec,
    is_threefold_spec,
};
use crate::moves::{legal_moves_for_piece_strict, strict_move};
use crate::state::{copy_board, is_fresh, wf, GameState, StateView};

verus! {

broadcast use crate::state::lemma_state_view;

/// One parsed client instruction.  The surrounding transport layer
/// turns raw messages into these plain values and discards anything
/// malformed or unknown.
pub enum Instruction {
    GetLegalMoves { square_clicked: u8 },
    RequestMove { destination: u8, promotion: Option<PieceType> },
    Rematch,
}

/// What the caller must do after an instruction was handled: reply to
/// this client alone with a legal-move list, broadcast a fresh
/// snapshot to the whole room, or nothing.
pub enum Outcome {
    Reply(Vec<u8>),
    Broadcast,
    Ignored,
}

/// Per-connection state: the seat's identity and the selection cursor,
/// the one piece of mutable state a session keeps between
/// instructions.
pub struct Session {
    pub client_id: u64,
    pub room_id: usize,
    pub assigned_color: Color,
    pub selection_cursor: Option<u8>,
}

/// A move request is accepted exactly when a cursor is set, the
/// selected square holds a piece of the session's assigned color, the
/// requested destination is a strictly legal target, the promotion
/// choice (if any) is a legal kind, and the clocks can still advance.
pub open spec fn move_accepted(
    sess: Session,
    v: StateView,
    dest: u8,
    promo: Option<PieceType>,
) -> bool {
    &&& (sess.selection_cursor matches Some(f) && f < 64 && (v.board[f as int] matches Some(p)
        && p.color == sess.assigned_color) && strict_move(v, f as int, dest as int))
    &&& dest < 64
    &&& (promo matches Some(k) ==> k != PieceType::King && k != PieceType::Pawn)
    &&& v.halfmove < u32::MAX
    &&& v.fullmove < u32::MAX
}

/// Whether a byte occurs in a vector.
fn vec_contains(v: &Vec<u8>, x: u8) -> (r: bool)
    ensures
        r == v@.contains(x),
{
    let mut i: usize = 0;
    while i < v.len()
        invariant
            i <= v@.len(),
            forall|j: int| 0 <= j < i ==> v@[j] != x,
        decreases v@.len() - i,
    {
        if v[i] == x {
            return true;
        }
        i = i + 1;
    }
    false
}

/// Handles one instruction against the room's game state.
///
/// `get_legal_moves` records the selection cursor and replies with the
/// strict legal targets; `request_move` applies the move only when the
/// seat owns the selected piece and the destination is legal (clearing
/// the cursor on success, leaving it on any refusal); `rematch`
/// replaces the game with a fresh starting position under a new game
/// code and clears the cursor.
pub fn handle_instruction(session: &mut Session, state: &mut GameState, instr: Instruction) -> (out:
    Outcome)
    requires
        wf(old(state)@),
    ensures
        wf(final(state)@),
        final(session).client_id == old(session).client_id,
        final(session).room_id == old(session).room_id,
        final(session).assigned_color == old(session).assigned_color,
        match instr {
            Instruction::GetLegalMoves { square_clicked } => {
                if square_clicked < 64 {
                    &&& final(state)@ == old(state)@
                    &&& final(session).selection_cursor == Some(square_clicked)
                    &&& (out matches Outcome::Reply(ms) && (forall|t: u8| #[trigger]
                        ms@.contains(t) <==> strict_move(
                            old(state)@,
                            square_clicked as int,
                            t as int,
                        )))
                } else {
                    &&& final(state)@ == old(state)@
                    &&& final(session).selection_cursor == old(session).selection_cursor
                    &&& out is Ignored
                }
            },
            Instruction::RequestMove { destination, promotion } => {
                if move_accepted(*old(session), old(state)@, destination, promotion) {
                    &&& (old(session).selection_cursor matches Some(f) && final(state)@
                        == apply_view(old(state)@, f as int, destination as int, promotion))
                    &&& final(session).selection_cursor is None
                    &&& out is Broadcast
                } else {
                    &&& final(state)@ == old(state)@
                    &&& final(session).selection_cursor == old(session).selection_cursor
                    &&& out is Ignored
                }
            },
            Instruction::Rematch => {
                &&& is_fresh(final(state)@)
                &&& final(session).selection_cursor is None
                &&& out is Broadcast
            },
        },
{
    match instr {
        Instruction::GetLegalMoves { square_clicked } => {
            if square_clicked < 64 {
                session.selection_cursor = Some(square_clicked);
                let ms = legal_moves_for_piece_strict(state, square_clicked);
                Outcome::Reply(ms)
            } else {
                Outcome::Ignored
            }
        },
        Instruction::RequestMove { destination, promotion } => {
            let from = match session.selection_cursor {
                None => {
                    return Outcome::Ignored;
                },
                Some(f) => f,
            };
            if from >= 64 || destination >= 64 {
                return Outcome::Ignored;
            }
            let color_ok = match state.piece_color_at(from as usize) {
                Some(c) => c == session.assigned_color,
                None => false,
            };
            let promo_ok = match promotion {
                Some(k) => !(k == PieceType::King) && !(k == PieceType::Pawn),
                None => true,
            };
            if !color_ok || !promo_ok {
                return Outcome::Ignored;
            }
            if !(state.halfmove_clock < u32::MAX) || !(state.fullmove_clock < u32::MAX) {
                return Outcome::Ignored;
            }
            let ms = legal_moves_for_piece_strict(state, from);
            if !vec_contains(&ms, destination) {
                return Outcome::Ignored;
            }
            state.move_piece(from, destination, promotion);
            session.selection_cursor = None;
            Outcome::Broadcast
        },
        Instruction::Rematch => {
            *state = GameState::new();
            session.selection_cursor = None;
            Outcome::Broadcast
        },
    }
}

/// The complete public view of a room's game state, published to every
/// subscriber after each accepted mutation.
pub struct Snapshot {
    pub board: Vec<Option<Piece>>,
    pub turn: Color,
    pub castling_rights: CastlingRights,
    pub en_passant_square: Option<u8>,
    pub halfmove_clock: u32,
    pub fullmove_clock: u32,
    pub game_code: String,
    pub in_check: bool,
    pub is_checkmate: bool,
    pub is_stalemate: bool,
    pub is_threefold_repetition: bool,
    pub is_fifty_move_draw: bool,
    pub is_insufficient_material: bool,
}

/// Assembles the snapshot of a state: the raw position fields plus
/// every derived terminal predicate.
pub fn snapshot(state: &GameState) -> (s: Snapshot)
    requires
        wf(state@),
    ensures
        s.board@ == state@.board,
        s.turn == state@.turn,
        s.castling_rights == state@.castling,
        s.en_passant_square == state@.en_passant,
        s.halfmove_clock == state@.halfmove,
        s.fullmove_clock == state@.fullmove,
        s.game_code@ == state@.code_text,
        s.in_check == in_check(state@),
        s.is_checkmate == is_checkmate_spec(state@),
        s.is_stalemate == is_stalemate_spec(state@),
        s.is_threefold_repetition == is_threefold_spec(state@),
        s.is_fifty_move_draw == (state@.halfmove >= 100),
        s.is_insufficient_material == insufficient_material(state@.board),
{
    Snapshot {
        board: copy_board(&state.board),
        turn: state.turn(),
        castling_rights: state.castling_rights,
        en_passant_square: state.en_passant_square,
        halfmove_clock: state.halfmove_clock,
        fullmove_clock: state.fullmove_clock,
        game_code: state.game_code.clone(),
        in_check: state.is_in_check(),
        is_checkmate: state.is_checkmate(),
        is_stalemate: state.is_stalemate(),
        is_threefold_repetition: state.is_threefold_repetition(),
        is_fifty_move_draw: state.is_fifty_move_draw(),
        is_insufficient_material: state.is_insufficient_material(),
    }
}

} // verus!
