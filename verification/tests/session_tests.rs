//! Session-handler and room-registry scenarios.

use chess_server::rooms::RoomRegistry;
use chess_server::session::{handle_instruction, snapshot, Instruction, Outcome, Session};
use chess_server::{Color, GameState, PieceType};

fn white_session() -> Session {
    Session { client_id: 1, room_id: 0, assigned_color: Color::White, selection_cursor: None }
}

fn black_session() -> Session {
    Session { client_id: 2, room_id: 0, assigned_color: Color::Black, selection_cursor: None }
}

fn boards_equal(a: &GameState, b: &GameState) -> bool {
    (0..64).all(|i| {
        a.piece_type_at(i) == b.piece_type_at(i) && a.piece_color_at(i) == b.piece_color_at(i)
    })
}

#[test]
fn get_legal_moves_sets_cursor_and_replies() {
    let mut state = GameState::new();
    let mut sess = white_session();
    let out = handle_instruction(
        &mut sess,
        &mut state,
        Instruction::GetLegalMoves { square_clicked: 12 },
    );
    assert_eq!(sess.selection_cursor, Some(12));
    match out {
        Outcome::Reply(mut ms) => {
            ms.sort();
            assert_eq!(ms, vec![20, 28]);
        }
        _ => panic!("expected a legal-move reply"),
    }
}

#[test]
fn out_of_range_square_is_ignored() {
    let mut state = GameState::new();
    let mut sess = white_session();
    let out = handle_instruction(
        &mut sess,
        &mut state,
        Instruction::GetLegalMoves { square_clicked: 200 },
    );
    assert!(matches!(out, Outcome::Ignored));
    assert_eq!(sess.selection_cursor, None);
}

#[test]
fn accepted_move_applies_and_clears_cursor() {
    let mut state = GameState::new();
    let mut sess = white_session();
    handle_instruction(&mut sess, &mut state, Instruction::GetLegalMoves { square_clicked: 12 });
    let out = handle_instruction(
        &mut sess,
        &mut state,
        Instruction::RequestMove { destination: 28, promotion: None },
    );
    assert!(matches!(out, Outcome::Broadcast));
    assert_eq!(sess.selection_cursor, None);
    assert_eq!(state.piece_type_at(28), Some(PieceType::Pawn));
    assert_eq!(state.piece_type_at(12), None);
    assert_eq!(state.turn(), Color::Black);
}

#[test]
fn move_without_selection_is_ignored() {
    let mut state = GameState::new();
    let fresh = GameState::new();
    let mut sess = white_session();
    let out = handle_instruction(
        &mut sess,
        &mut state,
        Instruction::RequestMove { destination: 28, promotion: None },
    );
    assert!(matches!(out, Outcome::Ignored));
    assert!(boards_equal(&state, &fresh));
    assert_eq!(state.turn(), Color::White);
}

#[test]
fn wrong_seat_move_is_ignored() {
    // with White to move, a Black-seated client cannot move anything
    let mut state = GameState::new();
    let fresh = GameState::new();
    let mut sess = black_session();
    for square in [12u8, 6, 52, 62] {
        handle_instruction(
            &mut sess,
            &mut state,
            Instruction::GetLegalMoves { square_clicked: square },
        );
        let out = handle_instruction(
            &mut sess,
            &mut state,
            Instruction::RequestMove { destination: 28, promotion: None },
        );
        assert!(matches!(out, Outcome::Ignored));
        // the cursor is kept on a refused move
        assert_eq!(sess.selection_cursor, Some(square));
        assert!(boards_equal(&state, &fresh));
        assert_eq!(state.turn(), Color::White);
    }
}

#[test]
fn illegal_destination_is_ignored() {
    let mut state = GameState::new();
    let fresh = GameState::new();
    let mut sess = white_session();
    handle_instruction(&mut sess, &mut state, Instruction::GetLegalMoves { square_clicked: 12 });
    let out = handle_instruction(
        &mut sess,
        &mut state,
        Instruction::RequestMove { destination: 44, promotion: None },
    );
    assert!(matches!(out, Outcome::Ignored));
    assert_eq!(sess.selection_cursor, Some(12));
    assert!(boards_equal(&state, &fresh));
}

#[test]
fn illegal_promotion_kind_is_ignored() {
    let mut state = GameState::new();
    let mut sess = white_session();
    handle_instruction(&mut sess, &mut state, Instruction::GetLegalMoves { square_clicked: 12 });
    let out = handle_instruction(
        &mut sess,
        &mut state,
        Instruction::RequestMove { destination: 28, promotion: Some(PieceType::King) },
    );
    assert!(matches!(out, Outcome::Ignored));
    assert_eq!(state.turn(), Color::White);
}

#[test]
fn rematch_resets_state_and_cursor() {
    let mut state = GameState::new();
    let mut sess = white_session();
    handle_instruction(&mut sess, &mut state, Instruction::GetLegalMoves { square_clicked: 12 });
    handle_instruction(
        &mut sess,
        &mut state,
        Instruction::RequestMove { destination: 28, promotion: None },
    );
    handle_instruction(&mut sess, &mut state, Instruction::GetLegalMoves { square_clicked: 6 });
    let out = handle_instruction(&mut sess, &mut state, Instruction::Rematch);
    assert!(matches!(out, Outcome::Broadcast));
    assert_eq!(sess.selection_cursor, None);
    assert_eq!(state.turn(), Color::White);
    assert!(boards_equal(&state, &GameState::new()));
    assert_eq!(snapshot(&state).halfmove_clock, 0);
    assert_eq!(snapshot(&state).fullmove_clock, 1);
}

#[test]
fn two_connection_matchmaking() {
    let mut reg = RoomRegistry::new();
    let (room_a, color_a) = reg.acquire_seat(1);
    assert_eq!(room_a, 0);
    assert_eq!(color_a, Color::White);
    let (room_b, color_b) = reg.acquire_seat(2);
    assert_eq!(room_b, 0);
    assert_eq!(color_b, Color::Black);
    assert_eq!(reg.rooms[0].seats, vec![1, 2]);
    // both seats see the same game, hence the same game code
    let one = snapshot(&reg.rooms[0].game_state);
    let two = snapshot(&reg.rooms[0].game_state);
    assert_eq!(one.game_code, two.game_code);
    assert_eq!(one.turn, Color::White);
    // a third client opens a second room with its own fresh game
    let (room_c, color_c) = reg.acquire_seat(3);
    assert_eq!(room_c, 1);
    assert_eq!(color_c, Color::White);
    assert_eq!(reg.rooms[1].room_id, 1);
}

#[test]
fn release_seat_frees_the_slot() {
    let mut reg = RoomRegistry::new();
    reg.acquire_seat(1);
    reg.acquire_seat(2);
    reg.release_seat(0, 1);
    assert_eq!(reg.rooms[0].seats, vec![2]);
    // the freed seat is handed to the next client, as White again
    let (room, color) = reg.acquire_seat(7);
    assert_eq!(room, 0);
    assert_eq!(color, Color::Black);
    assert_eq!(reg.rooms[0].seats, vec![2, 7]);
    // releasing an unknown room is a no-op
    reg.release_seat(9, 2);
    assert_eq!(reg.rooms.len(), 1);
}

#[test]
fn snapshot_reflects_state_and_predicates() {
    let mut state = GameState::new();
    let mut sess = white_session();
    let snap = snapshot(&state);
    assert_eq!(snap.board.len(), 64);
    assert!(!snap.in_check);
    assert!(!snap.is_checkmate);
    assert!(!snap.is_stalemate);
    assert!(!snap.is_threefold_repetition);
    assert!(!snap.is_fifty_move_draw);
    assert!(!snap.is_insufficient_material);
    assert_eq!(snap.en_passant_square, None);
    assert_eq!(snap.game_code, state.game_code());
    handle_instruction(&mut sess, &mut state, Instruction::GetLegalMoves { square_clicked: 12 });
    handle_instruction(
        &mut sess,
        &mut state,
        Instruction::RequestMove { destination: 28, promotion: None },
    );
    let after = snapshot(&state);
    assert_eq!(after.turn, Color::Black);
    assert_eq!(after.en_passant_square, Some(20));
    assert_eq!(after.game_code, snap.game_code);
}
