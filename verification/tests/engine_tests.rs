//! End-to-end rule-engine scenarios driven through the public API.

use chess_server::session::snapshot;
use chess_server::{Color, GameState, PieceType};

fn play(state: &mut GameState, moves: &[(u8, u8)]) {
    for &(from, to) in moves {
        let legal = chess_server::legal_moves_for_piece_strict(state, from);
        assert!(
            legal.contains(&to),
            "move {}->{} is not legal in this position",
            from,
            to
        );
        state.move_piece(from, to, None);
    }
}

#[test]
fn initial_position_facts() {
    let s = GameState::new();
    assert_eq!(s.turn(), Color::White);
    assert_eq!(s.piece_type_at(4), Some(PieceType::King));
    assert_eq!(s.piece_color_at(4), Some(Color::White));
    assert_eq!(s.piece_type_at(60), Some(PieceType::King));
    assert_eq!(s.piece_color_at(60), Some(Color::Black));
    assert_eq!(s.piece_type_at(0), Some(PieceType::Rook));
    assert_eq!(s.piece_type_at(12), Some(PieceType::Pawn));
    assert_eq!(s.piece_type_at(27), None);
    assert_eq!(s.piece_type_at(64), None);
    assert!(!s.is_in_check());
    assert!(!s.is_checkmate());
    assert!(!s.is_stalemate());
    assert!(!s.is_fifty_move_draw());
    assert!(!s.is_threefold_repetition());
    assert!(!s.is_insufficient_material());
}

#[test]
fn game_code_is_six_digits() {
    let s = GameState::new();
    let code = s.game_code();
    assert_eq!(code.len(), 6);
    assert!(code.chars().all(|c| c.is_ascii_digit()));
    assert!(code.parse::<u32>().unwrap() < 1_000_000);
}

#[test]
fn initial_pawn_and_knight_moves() {
    let s = GameState::new();
    let mut pawn = chess_server::legal_moves_for_piece_strict(&s, 12);
    pawn.sort();
    assert_eq!(pawn, vec![20, 28]);
    let mut knight = chess_server::legal_moves_for_piece_strict(&s, 6);
    knight.sort();
    assert_eq!(knight, vec![21, 23]);
    // a blocked rook has no moves, and black pieces cannot move on
    // White's turn
    assert!(chess_server::legal_moves_for_piece_strict(&s, 0).is_empty());
    assert!(chess_server::legal_moves_for_piece_strict(&s, 52).is_empty());
    // the black pawn still has pseudo-legal moves ignoring the turn
    assert!(!chess_server::legal_moves_for_piece(&s, 52).is_empty());
}

#[test]
fn legal_moves_never_leave_own_king_attacked() {
    // soundness, on concrete values: every legal move from the starting
    // position leaves the white king unattacked
    for from in 0..64u8 {
        let probe = GameState::new();
        let targets = chess_server::legal_moves_for_piece_strict(&probe, from);
        for to in targets {
            let mut s = GameState::new();
            s.move_piece(from, to, None);
            let king = (0..64u8)
                .find(|&i| {
                    s.piece_type_at(i as usize) == Some(PieceType::King)
                        && s.piece_color_at(i as usize) == Some(Color::White)
                })
                .expect("white king present");
            assert!(!chess_server::is_square_attacked(&s, king, Color::Black));
        }
    }
}

#[test]
fn check_can_be_answered_when_not_mate() {
    // completeness, on concrete values: 1.e4 f6 2.Qh5+ is check but not
    // mate, and ...g6 answers it
    let mut s = GameState::new();
    play(&mut s, &[(12, 28), (53, 45), (3, 39)]);
    assert!(s.is_in_check());
    assert!(!s.is_checkmate());
    let g7 = chess_server::legal_moves_for_piece_strict(&s, 54);
    assert!(g7.contains(&46));
    // moves that do not address the check are rejected
    let a7 = chess_server::legal_moves_for_piece_strict(&s, 48);
    assert!(a7.is_empty());
}

#[test]
fn scholars_mate_is_checkmate() {
    let mut s = GameState::new();
    play(
        &mut s,
        &[(12, 28), (52, 36), (5, 26), (57, 42), (3, 39), (62, 45), (39, 53)],
    );
    assert!(s.is_checkmate());
    assert_eq!(s.turn(), Color::Black);
    assert!(s.is_in_check());
    assert!(!s.is_stalemate());
}

#[test]
fn quickest_stalemate_is_recognized() {
    // the ten-move stalemate: 1.e3 a5 2.Qh5 Ra6 3.Qxa5 h5 4.Qxc7 Rah6
    // 5.h4 f6 6.Qxd7+ Kf7 7.Qxb7 Qd3 8.Qxb8 Qh7 9.Qxc8 Kg6 10.Qe6
    let mut s = GameState::new();
    play(
        &mut s,
        &[
            (12, 20),
            (48, 32),
            (3, 39),
            (56, 40),
            (39, 32),
            (55, 39),
            (32, 50),
            (40, 47),
            (15, 31),
            (53, 45),
            (50, 51),
            (60, 53),
            (51, 49),
            (59, 19),
            (49, 57),
            (19, 55),
            (57, 58),
            (53, 46),
            (58, 44),
        ],
    );
    assert_eq!(s.turn(), Color::Black);
    assert!(!s.is_in_check());
    assert!(s.is_stalemate());
    assert!(!s.is_checkmate());
}

#[test]
fn turn_alternates_on_every_move() {
    let mut s = GameState::new();
    assert_eq!(s.turn(), Color::White);
    play(&mut s, &[(12, 28)]);
    assert_eq!(s.turn(), Color::Black);
    play(&mut s, &[(52, 36)]);
    assert_eq!(s.turn(), Color::White);
    play(&mut s, &[(6, 21)]);
    assert_eq!(s.turn(), Color::Black);
}

#[test]
fn kingside_castling_moves_king_and_rook() {
    let mut s = GameState::new();
    // clear f1 and g1, keep squares 4..6 unattacked, then castle
    play(
        &mut s,
        &[(12, 28), (52, 36), (6, 21), (57, 42), (5, 26), (51, 43)],
    );
    let king_moves = chess_server::legal_moves_for_piece_strict(&s, 4);
    assert!(king_moves.contains(&6));
    play(&mut s, &[(4, 6)]);
    assert_eq!(s.piece_type_at(6), Some(PieceType::King));
    assert_eq!(s.piece_color_at(6), Some(Color::White));
    assert_eq!(s.piece_type_at(5), Some(PieceType::Rook));
    assert_eq!(s.piece_type_at(4), None);
    assert_eq!(s.piece_type_at(7), None);
    let snap = snapshot(&s);
    assert!(!snap.castling_rights.white_kingside);
    assert!(!snap.castling_rights.white_queenside);
    assert!(snap.castling_rights.black_kingside);
    assert!(snap.castling_rights.black_queenside);
}

#[test]
fn castling_requires_empty_and_unattacked_squares() {
    let s = GameState::new();
    // f1 and g1 are occupied at the start: castling is not offered
    let king_moves = chess_server::legal_moves_for_piece_strict(&s, 4);
    assert!(!king_moves.contains(&6));
    assert!(!king_moves.contains(&2));
}

#[test]
fn rook_move_revokes_only_its_side() {
    let mut s = GameState::new();
    play(&mut s, &[(15, 31), (48, 32), (7, 15), (32, 24)]);
    let snap = snapshot(&s);
    assert!(!snap.castling_rights.white_kingside);
    assert!(snap.castling_rights.white_queenside);
    assert!(snap.castling_rights.black_kingside);
    assert!(snap.castling_rights.black_queenside);
    // rights never come back
    play(&mut s, &[(15, 7), (24, 16)]);
    let snap2 = snapshot(&s);
    assert!(!snap2.castling_rights.white_kingside);
    assert!(snap2.castling_rights.white_queenside);
}

#[test]
fn en_passant_capture_removes_passed_pawn() {
    let mut s = GameState::new();
    play(&mut s, &[(12, 28), (48, 32), (28, 36), (51, 35)]);
    let snap = snapshot(&s);
    assert_eq!(snap.en_passant_square, Some(43));
    let pawn_moves = chess_server::legal_moves_for_piece_strict(&s, 36);
    assert!(pawn_moves.contains(&43));
    play(&mut s, &[(36, 43)]);
    assert_eq!(s.piece_type_at(35), None);
    assert_eq!(s.piece_type_at(43), Some(PieceType::Pawn));
    assert_eq!(s.piece_color_at(43), Some(Color::White));
    // the target is consumed immediately
    assert_eq!(snapshot(&s).en_passant_square, None);
}

#[test]
fn en_passant_target_set_only_after_double_step() {
    let mut s = GameState::new();
    play(&mut s, &[(12, 28)]);
    assert_eq!(snapshot(&s).en_passant_square, Some(20));
    play(&mut s, &[(57, 42)]);
    assert_eq!(snapshot(&s).en_passant_square, None);
}

#[test]
fn auto_queen_promotion() {
    let mut s = GameState::new();
    play(
        &mut s,
        &[
            (9, 25),
            (55, 39),
            (25, 33),
            (39, 31),
            (33, 41),
            (31, 23),
            (41, 48),
            (23, 14),
            (6, 21),
            (57, 42),
            (21, 6),
            (56, 57),
            (48, 56),
        ],
    );
    assert_eq!(s.piece_type_at(56), Some(PieceType::Queen));
    assert_eq!(s.piece_color_at(56), Some(Color::White));
}

#[test]
fn chosen_promotion_kind_is_respected() {
    let mut s = GameState::new();
    play(
        &mut s,
        &[
            (9, 25),
            (55, 39),
            (25, 33),
            (39, 31),
            (33, 41),
            (31, 23),
            (41, 48),
            (23, 14),
            (6, 21),
            (57, 42),
            (21, 6),
            (56, 57),
        ],
    );
    let legal = chess_server::legal_moves_for_piece_strict(&s, 48);
    assert!(legal.contains(&56));
    s.move_piece(48, 56, Some(PieceType::Knight));
    assert_eq!(s.piece_type_at(56), Some(PieceType::Knight));
}

#[test]
fn clock_laws_on_concrete_moves() {
    let mut s = GameState::new();
    assert_eq!(snapshot(&s).halfmove_clock, 0);
    assert_eq!(snapshot(&s).fullmove_clock, 1);
    play(&mut s, &[(6, 21)]);
    let a = snapshot(&s);
    assert_eq!(a.halfmove_clock, 1);
    assert_eq!(a.fullmove_clock, 1);
    play(&mut s, &[(62, 45)]);
    let b = snapshot(&s);
    assert_eq!(b.halfmove_clock, 2);
    assert_eq!(b.fullmove_clock, 2);
    // a pawn move resets the half-move clock
    play(&mut s, &[(12, 28)]);
    let c = snapshot(&s);
    assert_eq!(c.halfmove_clock, 0);
    assert_eq!(c.fullmove_clock, 2);
    // a capture resets it as well
    play(&mut s, &[(45, 28)]);
    let d = snapshot(&s);
    assert_eq!(d.halfmove_clock, 0);
    assert_eq!(d.fullmove_clock, 3);
    assert!(!s.is_fifty_move_draw());
}

#[test]
fn knight_shuffle_reaches_threefold_repetition() {
    let mut s = GameState::new();
    let shuffle = [(6, 21), (62, 45), (21, 6), (45, 62)];
    play(&mut s, &shuffle);
    assert!(!s.is_threefold_repetition());
    play(&mut s, &[(6, 21), (62, 45), (21, 6)]);
    assert!(!s.is_threefold_repetition());
    play(&mut s, &[(45, 62)]);
    assert!(s.is_threefold_repetition());
}

#[test]
fn hundred_quiet_halfmoves_allow_fifty_move_draw() {
    let mut s = GameState::new();
    let shuffle = [(6, 21), (62, 45), (21, 6), (45, 62)];
    for round in 0..25 {
        play(&mut s, &shuffle);
        let clock = snapshot(&s).halfmove_clock;
        assert_eq!(clock, (round + 1) * 4);
    }
    assert_eq!(snapshot(&s).halfmove_clock, 100);
    assert!(s.is_fifty_move_draw());
    // one pawn move resets the claim
    play(&mut s, &[(12, 20)]);
    assert!(!s.is_fifty_move_draw());
    assert_eq!(snapshot(&s).halfmove_clock, 0);
}

#[test]
fn starting_board_layout() {
    let b = chess_server::starting_board();
    assert_eq!(b.len(), 64);
    for i in 8..16 {
        let p = b[i].unwrap();
        assert_eq!(p.piece_type, PieceType::Pawn);
        assert_eq!(p.color, Color::White);
    }
    for i in 16..48 {
        assert!(b[i].is_none());
    }
    let kinds = [
        PieceType::Rook,
        PieceType::Knight,
        PieceType::Bishop,
        PieceType::Queen,
        PieceType::King,
        PieceType::Bishop,
        PieceType::Knight,
        PieceType::Rook,
    ];
    for f in 0..8 {
        assert_eq!(b[f].unwrap().piece_type, kinds[f]);
        assert_eq!(b[f].unwrap().color, Color::White);
        assert_eq!(b[56 + f].unwrap().piece_type, kinds[f]);
        assert_eq!(b[56 + f].unwrap().color, Color::Black);
    }
}
