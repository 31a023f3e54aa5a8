//! The game state: board, side to move, castling rights, en-passant
//! target, move clocks, the six-digit game code and the repetition
//! history, together with its mathematical view and well-formedness.

use vstd::prelude::*;

use crate::attack::pawn_attacks;
use crate::board::{Board, CastlingRights, Color, Piece, PieceType, rank_of};

verus! {

/// Mathematical view of a position fingerprint: what threefold
/// repetition compares.  The en-passant field is the *effective* target
/// (kept only when a pawn of the side to move could capture onto it).
#[verifier::ext_equal]
pub struct FingerprintView {
    pub board: Seq<Option<Piece>>,
    pub turn: Color,
    pub castling: CastlingRights,
    pub en_passant: Option<u8>,
}

/// A recorded position fingerprint: piece placement, side to move,
/// castling rights and the effective en-passant target.
pub struct Fingerprint {
    pub board: Board,
    pub turn: Color,
    pub castling: CastlingRights,
    pub en_passant: Option<u8>,
}

impl View for Fingerprint {
    type V = FingerprintView;

    closed spec fn view(&self) -> FingerprintView {
        FingerprintView {
            board: self.board@,
            turn: self.turn,
            castling: self.castling,
            en_passant: self.en_passant,
        }
    }
}

/// Mathematical view of a whole game state.
#[verifier::ext_equal]
pub struct StateView {
    pub board: Seq<Option<Piece>>,
    pub turn: Color,
    pub castling: CastlingRights,
    pub en_passant: Option<u8>,
    pub halfmove: int,
    pub fullmove: int,
    pub code: int,
    pub code_text: Seq<char>,
    pub history: Seq<FingerprintView>,
}

/// The full state of one game.
pub struct GameState {
    pub(crate) board: Board,
    pub(crate) turn: Color,
    pub(crate) castling_rights: CastlingRights,
    pub(crate) en_passant_square: Option<u8>,
    pub(crate) halfmove_clock: u32,
    pub(crate) fullmove_clock: u32,
    pub(crate) game_code: String,
    pub(crate) game_code_value: u32,
    pub(crate) history: Vec<Fingerprint>,
}

impl View for GameState {
    type V = StateView;

    closed spec fn view(&self) -> StateView {
        StateView {
            board: self.board@,
            turn: self.turn,
            castling: self.castling_rights,
            en_passant: self.en_passant_square,
            halfmove: self.halfmove_clock as int,
            fullmove: self.fullmove_clock as int,
            code: self.game_code_value as int,
            code_text: self.game_code@,
            history: self.history@.map_values(|f: Fingerprint| f@),
        }
    }
}

/// Relates a game state's view to its fields, for the crate's other
/// modules.
pub(crate) broadcast proof fn lemma_state_view(s: &GameState)
    ensures
        (#[trigger] s@).board == s.board@,
        s@.turn == s.turn,
        s@.castling == s.castling_rights,
        s@.en_passant == s.en_passant_square,
        s@.halfmove == s.halfmove_clock as int,
        s@.fullmove == s.fullmove_clock as int,
        s@.code == s.game_code_value as int,
        s@.code_text == s.game_code@,
        s@.history == s.history@.map_values(|f: Fingerprint| f@),
{
}

/// Relates a fingerprint's view to its fields, for the crate's other
/// modules.
pub(crate) broadcast proof fn lemma_fingerprint_view(f: &Fingerprint)
    ensures
        (#[trigger] f@).board == f.board@,
        f@.turn == f.turn,
        f@.castling == f.castling,
        f@.en_passant == f.en_passant,
{
}

/// The decimal digit `d` as a character.
pub open spec fn digit_char(d: int) -> char {
    if d == 0 {
        '0'
    } else if d == 1 {
        '1'
    } else if d == 2 {
        '2'
    } else if d == 3 {
        '3'
    } else if d == 4 {
        '4'
    } else if d == 5 {
        '5'
    } else if d == 6 {
        '6'
    } else if d == 7 {
        '7'
    } else if d == 8 {
        '8'
    } else {
        '9'
    }
}

/// The six-digit zero-padded decimal text of `code`.
pub open spec fn code_chars(code: int) -> Seq<char> {
    seq![
        digit_char(code / 100000 % 10),
        digit_char(code / 10000 % 10),
        digit_char(code / 1000 % 10),
        digit_char(code / 100 % 10),
        digit_char(code / 10 % 10),
        digit_char(code % 10),
    ]
}

/// Well-formedness of a game state: 64 squares, an en-passant target
/// only ever on rank 2 or 5, a six-digit game code whose text matches
/// its value, and a full-move counter that started at 1.
pub open spec fn wf(v: StateView) -> bool {
    &&& v.board.len() == 64
    &&& (v.en_passant matches Some(e) ==> 16 <= e < 24 || 40 <= e < 48)
    &&& 0 <= v.code < 1000000
    &&& v.code_text == code_chars(v.code)
    &&& v.fullmove >= 1
    &&& 0 <= v.halfmove
}

/// Some pawn of `c` could capture onto `e` by pawn capture geometry.
pub open spec fn ep_capturable(board: Seq<Option<Piece>>, c: Color, e: int) -> bool {
    exists|i: int|
        0 <= i < 64 && ((#[trigger] board[i]) matches Some(p) && p.piece_type == PieceType::Pawn
            && p.color == c && pawn_attacks(c, i, e))
}

/// The effective en-passant target: the stored one, kept only when a
/// pawn of the side to move could actually capture onto it this turn.
pub open spec fn effective_ep(board: Seq<Option<Piece>>, turn: Color, ep: Option<u8>) -> Option<
    u8,
> {
    match ep {
        Some(e) => if ep_capturable(board, turn, e as int) {
            Some(e)
        } else {
            None
        },
        None => None,
    }
}

/// The fingerprint of a state: placement, side to move, castling
/// rights and effective en-passant target.
pub open spec fn fingerprint_of(v: StateView) -> FingerprintView {
    FingerprintView {
        board: v.board,
        turn: v.turn,
        castling: v.castling,
        en_passant: effective_ep(v.board, v.turn, v.en_passant),
    }
}

/// The piece kind on the back rank at file `f` in the starting
/// configuration.
pub open spec fn back_rank_kind(f: int) -> PieceType {
    if f == 0 || f == 7 {
        PieceType::Rook
    } else if f == 1 || f == 6 {
        PieceType::Knight
    } else if f == 2 || f == 5 {
        PieceType::Bishop
    } else if f == 3 {
        PieceType::Queen
    } else {
        PieceType::King
    }
}

/// Square `i` of the standard starting position.
pub open spec fn initial_square(i: int) -> Option<Piece> {
    if rank_of(i) == 0 {
        Some(Piece { piece_type: back_rank_kind(i % 8), color: Color::White })
    } else if rank_of(i) == 1 {
        Some(Piece { piece_type: PieceType::Pawn, color: Color::White })
    } else if rank_of(i) == 6 {
        Some(Piece { piece_type: PieceType::Pawn, color: Color::Black })
    } else if rank_of(i) == 7 {
        Some(Piece { piece_type: back_rank_kind(i % 8), color: Color::Black })
    } else {
        None
    }
}

/// The standard starting board.
pub open spec fn initial_board() -> Seq<Option<Piece>> {
    Seq::new(64, |i: int| initial_square(i))
}

/// All four castling rights.
pub open spec fn full_rights() -> CastlingRights {
    CastlingRights {
        white_kingside: true,
        white_queenside: true,
        black_kingside: true,
        black_queenside: true,
    }
}

/// The fingerprint of the standard starting position.
pub open spec fn initial_fingerprint() -> FingerprintView {
    FingerprintView {
        board: initial_board(),
        turn: Color::White,
        castling: full_rights(),
        en_passant: None,
    }
}

/// A freshly constructed game, up to the randomly drawn game code.
pub open spec fn is_fresh(v: StateView) -> bool {
    &&& v.board == initial_board()
    &&& v.turn == Color::White
    &&& v.castling == full_rights()
    &&& v.en_passant is None
    &&& v.halfmove == 0
    &&& v.fullmove == 1
    &&& v.history == seq![initial_fingerprint()]
}

/// The starting position's square `i`, computed.
fn initial_square_at(i: u8) -> (s: Option<Piece>)
    requires
        i < 64,
    ensures
        s == initial_square(i as int),
{
    let rank = i / 8;
    let file = i % 8;
    let kind = if file == 0 || file == 7 {
        PieceType::Rook
    } else if file == 1 || file == 6 {
        PieceType::Knight
    } else if file == 2 || file == 5 {
        PieceType::Bishop
    } else if file == 3 {
        PieceType::Queen
    } else {
        PieceType::King
    };
    if rank == 0 {
        Some(Piece { piece_type: kind, color: Color::White })
    } else if rank == 1 {
        Some(Piece { piece_type: PieceType::Pawn, color: Color::White })
    } else if rank == 6 {
        Some(Piece { piece_type: PieceType::Pawn, color: Color::Black })
    } else if rank == 7 {
        Some(Piece { piece_type: kind, color: Color::Black })
    } else {
        None
    }
}

/// Builds the standard starting board.
pub fn starting_board() -> (b: Board)
    ensures
        b@ == initial_board(),
{
    let mut b: Board = Vec::new();
    let mut i: u8 = 0;
    while i < 64
        invariant
            i <= 64,
            b@.len() == i as int,
            forall|j: int| 0 <= j < i ==> b@[j] == initial_square(j),
        decreases 64 - i,
    {
        b.push(initial_square_at(i));
        i = i + 1;
    }
    proof {
        assert(b@ =~= initial_board());
    }
    b
}

/// Copies a board square by square.
pub(crate) fn copy_board(b: &Board) -> (c: Board)
    ensures
        c@ == b@,
{
    let mut c: Board = Vec::new();
    let mut i: usize = 0;
    while i < b.len()
        invariant
            i <= b@.len(),
            c@.len() == i as int,
            forall|j: int| 0 <= j < i ==> c@[j] == b@[j],
        decreases b@.len() - i,
    {
        c.push(b[i]);
        i = i + 1;
    }
    proof {
        assert(c@ =~= b@);
    }
    c
}

/// Whether two squares hold the same contents.
pub(crate) fn square_eq(a: Option<Piece>, b: Option<Piece>) -> (r: bool)
    ensures
        r == (a == b),
{
    match (a, b) {
        (None, None) => true,
        (Some(x), Some(y)) => x == y,
        _ => false,
    }
}

/// Whether two fingerprints record the same position.
pub(crate) fn fingerprint_eq(a: &Fingerprint, b: &Fingerprint) -> (r: bool)
    ensures
        r == (a@ == b@),
{
    if !(a.turn == b.turn) {
        return false;
    }
    if !(a.castling == b.castling) {
        return false;
    }
    let ep_same = match (a.en_passant, b.en_passant) {
        (None, None) => true,
        (Some(x), Some(y)) => x == y,
        _ => false,
    };
    if !ep_same {
        return false;
    }
    if a.board.len() != b.board.len() {
        return false;
    }
    let mut i: usize = 0;
    while i < a.board.len()
        invariant
            a@.board.len() == b@.board.len(),
            i <= a@.board.len(),
            forall|j: int| 0 <= j < i ==> a@.board[j] == b@.board[j],
        decreases a@.board.len() - i,
    {
        if !square_eq(a.board[i], b.board[i]) {
            return false;
        }
        i = i + 1;
    }
    proof {
        assert(a@.board =~= b@.board);
        assert(a@ =~= b@);
    }
    true
}

/// Relies on rand::random_range: returns a value within the given
/// (non-empty) range.
#[verifier::external_body]
fn random_game_code() -> (code: u32)
    ensures
        code < 1000000,
{
    rand::random_range(0..1_000_000u32)
}

/// The decimal digit `d` as a one-character string.
fn digit_str(d: u8) -> (r: &'static str)
    requires
        d < 10,
    ensures
        r@ =~= seq![digit_char(d as int)],
{
    match d {
        0 => {
            proof {
                reveal_strlit("0");
            }
            "0"
        },
        1 => {
            proof {
                reveal_strlit("1");
            }
            "1"
        },
        2 => {
            proof {
                reveal_strlit("2");
            }
            "2"
        },
        3 => {
            proof {
                reveal_strlit("3");
            }
            "3"
        },
        4 => {
            proof {
                reveal_strlit("4");
            }
            "4"
        },
        5 => {
            proof {
                reveal_strlit("5");
            }
            "5"
        },
        6 => {
            proof {
                reveal_strlit("6");
            }
            "6"
        },
        7 => {
            proof {
                reveal_strlit("7");
            }
            "7"
        },
        8 => {
            proof {
                reveal_strlit("8");
            }
            "8"
        },
        _ => {
            proof {
                reveal_strlit("9");
            }
            "9"
        },
    }
}

/// Formats `code` as six zero-padded decimal digits.
fn game_code_string(code: u32) -> (s: String)
    requires
        code < 1000000,
    ensures
        s@ == code_chars(code as int),
{
    let mut s = String::new();
    s.append(digit_str((code / 100000 % 10) as u8));
    s.append(digit_str((code / 10000 % 10) as u8));
    s.append(digit_str((code / 1000 % 10) as u8));
    s.append(digit_str((code / 100 % 10) as u8));
    s.append(digit_str((code / 10 % 10) as u8));
    s.append(digit_str((code % 10) as u8));
    proof {
        assert(s@ =~= code_chars(code as int));
    }
    s
}

impl GameState {
    /// Computes the fingerprint of the current position.
    pub(crate) fn make_fingerprint(&self) -> (fp: Fingerprint)
        requires
            self@.board.len() == 64,
        ensures
            fp@ == fingerprint_of(self@),
    {
        let eff = match self.en_passant_square {
            None => None,
            Some(e) => {
                let mut found = false;
                let mut i: u8 = 0;
                while i < 64
                    invariant
                        self@.board.len() == 64,
                        i <= 64,
                        found == exists|j: int|
                            0 <= j < i && ((#[trigger] self@.board[j]) matches Some(p)
                                && p.piece_type == PieceType::Pawn && p.color == self@.turn
                                && pawn_attacks(self@.turn, j, e as int)),
                    decreases 64 - i,
                {
                    match self.board[i as usize] {
                        Some(p) => {
                            if p.piece_type == PieceType::Pawn && p.color == self.turn {
                                let dir: i8 = if p.color == Color::White {
                                    1
                                } else {
                                    -1
                                };
                                let fx = (i % 8) as i8;
                                let fy = (i / 8) as i8;
                                let tx = (e % 8) as i8;
                                let ty = (e / 8) as i8;
                                let adx = if tx >= fx {
                                    tx - fx
                                } else {
                                    fx - tx
                                };
                                if ty == fy + dir && adx == 1 {
                                    found = true;
                                }
                            }
                        },
                        None => {},
                    }
                    i = i + 1;
                }
                if found {
                    Some(e)
                } else {
                    None
                }
            },
        };
        Fingerprint {
            board: copy_board(&self.board),
            turn: self.turn,
            castling: self.castling_rights,
            en_passant: eff,
        }
    }

    /// Constructs a fresh game in the standard starting position with a
    /// newly drawn six-digit game code.
    pub fn new() -> (s: Self)
        ensures
            wf(s@),
            is_fresh(s@),
    {
        let code = random_game_code();
        let text = game_code_string(code);
        let mut s = GameState {
            board: starting_board(),
            turn: Color::White,
            castling_rights: CastlingRights {
                white_kingside: true,
                white_queenside: true,
                black_kingside: true,
                black_queenside: true,
            },
            en_passant_square: None,
            halfmove_clock: 0,
            fullmove_clock: 1,
            game_code: text,
            game_code_value: code,
            history: Vec::new(),
        };
        let fp = s.make_fingerprint();
        s.history.push(fp);
        proof {
            assert(s@.history =~= seq![initial_fingerprint()]);
        }
        s
    }

    /// Returns the game code identifier.
    pub fn game_code(&self) -> (r: &str)
        ensures
            r@ == self@.code_text,
    {
        self.game_code.as_str()
    }

    /// Returns the current player's turn color.
    pub fn turn(&self) -> (c: Color)
        ensures
            c == self@.turn,
    {
        self.turn
    }

    /// Returns the type of the piece at a given board index, or None if
    /// the square is empty or off the board.
    pub fn piece_type_at(&self, idx: usize) -> (r: Option<PieceType>)
        ensures
            r == (if 0 <= idx < self@.board.len() {
                match self@.board[idx as int] {
                    Some(p) => Some(p.piece_type),
                    None => None,
                }
            } else {
                None
            }),
    {
        if idx < self.board.len() {
            match self.board[idx] {
                Some(p) => Some(p.piece_type),
                None => None,
            }
        } else {
            None
        }
    }

    /// Returns the color of the piece at a given board index, or None if
    /// the square is empty or off the board.
    pub fn piece_color_at(&self, idx: usize) -> (r: Option<Color>)
        ensures
            r == (if 0 <= idx < self@.board.len() {
                match self@.board[idx as int] {
                    Some(p) => Some(p.color),
                    None => None,
                }
            } else {
                None
            }),
    {
        if idx < self.board.len() {
            match self.board[idx] {
                Some(p) => Some(p.color),
                None => None,
            }
        } else {
            None
        }
    }
}

} // verus!
