//! The committed game state: an 8x8 grid of optional pieces stored row-major
//! in a flat 64-cell array, the side to move, and the two players with their
//! cached king squares.

use vstd::prelude::*;
use vstd::string::StringExecFns;

use crate::piece_type::{
    idx_of, in_board, ChessPiece, ChessPieceColor, ChessPieceType, Message, Square,
};
use crate::chessboard_validation::{
    checkmate_of, first_attacker, in_check, is_check, is_checkmate, is_first_attacker,
    lemma_first_attacker_unique, move_validation, validate_move,
};
use crate::player::Player;
use crate::utilities::is_accepted;

verus! {

/// The full game state. `board[row * 8 + col]` holds the piece on
/// `(row, col)`, if any. `player1` is White, `player2` is Black.
pub struct Chessboard {
    pub board: [Option<ChessPiece>; 64],
    pub player_turn: ChessPieceColor,
    pub player1: Player,
    pub player2: Player,
}

/// The mathematical model of a game state: the grid as a sequence, the side
/// to move, and the two cached king squares.
pub struct BoardModel {
    pub grid: Seq<Option<ChessPiece>>,
    pub turn: ChessPieceColor,
    pub white_king: Square,
    pub black_king: Square,
}

impl View for Chessboard {
    type V = BoardModel;

    open spec fn view(&self) -> BoardModel {
        BoardModel {
            grid: self.board@,
            turn: self.player_turn,
            white_king: self.player1.king_position,
            black_king: self.player2.king_position,
        }
    }
}

/// The cell of the model at a square.
pub open spec fn cell(m: BoardModel, s: Square) -> Option<ChessPiece> {
    m.grid[idx_of(s)]
}

/// The cached king square of a side.
pub open spec fn king_square(m: BoardModel, color: ChessPieceColor) -> Square {
    match color {
        ChessPieceColor::White => m.white_king,
        ChessPieceColor::Black => m.black_king,
    }
}

/// True when a cell holds the king of the given side.
pub open spec fn is_king_cell(c: Option<ChessPiece>, color: ChessPieceColor) -> bool {
    match c {
        Some(p) => p.piece is King && p.color == color,
        None => false,
    }
}

/// Well-formedness of a game state:
/// - each piece's stored `position` equals the grid index holding it;
/// - each side's cached king square holds that side's king;
/// - each side has exactly one king, the one the cache points at.
pub open spec fn board_ok(m: BoardModel) -> bool {
    &&& m.grid.len() == 64
    &&& forall|i: int|
        0 <= i < 64 ==> match #[trigger] m.grid[i] {
            Some(p) => in_board(p.position) && idx_of(p.position) == i,
            None => true,
        }
    &&& in_board(m.white_king) && is_king_cell(m.grid[idx_of(m.white_king)],
    ChessPieceColor::White)
    &&& in_board(m.black_king) && is_king_cell(m.grid[idx_of(m.black_king)],
    ChessPieceColor::Black)
    &&& forall|i: int|
        0 <= i < 64 ==> match #[trigger] m.grid[i] {
            Some(p) => p.piece is King ==> i == idx_of(king_square(m, p.color)),
            None => true,
        }
}

impl Chessboard {
    /// The state invariant every public operation preserves.
    pub open spec fn wf(&self) -> bool {
        board_ok(self@)
    }
}

impl Clone for Chessboard {
    /// An exact copy of the game state.
    fn clone(&self) -> (r: Self)
        ensures
            r == *self,
    {
        Chessboard {
            board: self.board,
            player_turn: self.player_turn,
            player1: Player {
                name: self.player1.name.clone(),
                king_position: self.player1.king_position,
            },
            player2: Player {
                name: self.player2.name.clone(),
                king_position: self.player2.king_position,
            },
        }
    }
}

/// The kind standing on a back-rank column in the opening position.
pub open spec fn back_rank_kind(c: usize) -> ChessPieceType {
    if c == 0 || c == 7 {
        ChessPieceType::Rook
    } else if c == 1 || c == 6 {
        ChessPieceType::Knight
    } else if c == 2 || c == 5 {
        ChessPieceType::Bishop
    } else if c == 3 {
        ChessPieceType::Queen
    } else {
        ChessPieceType::King
    }
}

/// A piece that has never moved.
pub open spec fn fresh_piece(kind: ChessPieceType, color: ChessPieceColor, s: Square) -> ChessPiece {
    ChessPiece { piece: kind, color, position: s, before_position: None }
}

/// The opening position: full back rank and pawn rank for Black on rows 0
/// and 1; pawn rank for White on row 6; White's back rank on row 7 with the
/// king-side bishop and knight squares left open.
pub open spec fn initial_cell(s: Square) -> Option<ChessPiece> {
    if s.row == 0 {
        Some(fresh_piece(back_rank_kind(s.col), ChessPieceColor::Black, s))
    } else if s.row == 1 {
        Some(fresh_piece(ChessPieceType::Pawn, ChessPieceColor::Black, s))
    } else if s.row == 6 {
        Some(fresh_piece(ChessPieceType::Pawn, ChessPieceColor::White, s))
    } else if s.row == 7 {
        if s.col == 5 || s.col == 6 {
            None
        } else {
            Some(fresh_piece(back_rank_kind(s.col), ChessPieceColor::White, s))
        }
    } else {
        None
    }
}

impl Chessboard {
    /// The game state at the start of a game: the opening position, White
    /// ("Blanco") to move against Black ("Negro"), and both king caches
    /// pointing at the kings.
    pub fn new() -> (r: Chessboard)
        ensures
            r.wf(),
            r@.turn is White,
            forall|s: Square| in_board(s) ==> cell(r@, s) == initial_cell(s),
            r@.white_king == (Square { row: 7, col: 4 }),
            r@.black_king == (Square { row: 0, col: 4 }),
            r.player1.name@ == "Blanco"@,
            r.player2.name@ == "Negro"@,
    {
        let mut board: [Option<ChessPiece>; 64] = [None; 64];
        let mut col: usize = 0;
        while col < 8
            invariant
                col <= 8,
                forall|i: int|
                    0 <= i < 64 ==> #[trigger] board@[i] == if i < col {
                        initial_cell(Square { row: 0, col: i as usize })
                    } else {
                        None::<ChessPiece>
                    },
            decreases 8 - col,
        {
            let s = Square { row: 0, col };
            let kind = if col == 0 || col == 7 {
                ChessPieceType::Rook
            } else if col == 1 || col == 6 {
                ChessPieceType::Knight
            } else if col == 2 || col == 5 {
                ChessPieceType::Bishop
            } else if col == 3 {
                ChessPieceType::Queen
            } else {
                ChessPieceType::King
            };
            board[col] = Some(
                ChessPiece {
                    piece: kind,
                    color: ChessPieceColor::Black,
                    position: s,
                    before_position: None,
                },
            );
            col = col + 1;
        }
        let mut col: usize = 0;
        while col < 8
            invariant
                col <= 8,
                forall|i: int|
                    0 <= i < 64 ==> #[trigger] board@[i] == if i < 8 {
                        initial_cell(Square { row: 0, col: i as usize })
                    } else if 8 <= i < 8 + col {
                        initial_cell(Square { row: 1, col: (i - 8) as usize })
                    } else {
                        None::<ChessPiece>
                    },
            decreases 8 - col,
        {
            board[8 + col] = Some(
                ChessPiece {
                    piece: ChessPieceType::Pawn,
                    color: ChessPieceColor::Black,
                    position: Square { row: 1, col },
                    before_position: None,
                },
            );
            col = col + 1;
        }
        let mut col: usize = 0;
        while col < 8
            invariant
                col <= 8,
                forall|i: int|
                    0 <= i < 64 ==> #[trigger] board@[i] == if i < 16 {
                        initial_cell(Square { row: (i / 8) as usize, col: (i % 8) as usize })
                    } else if 48 <= i < 48 + col {
                        initial_cell(Square { row: 6, col: (i - 48) as usize })
                    } else {
                        None::<ChessPiece>
                    },
            decreases 8 - col,
        {
            board[48 + col] = Some(
                ChessPiece {
                    piece: ChessPieceType::Pawn,
                    color: ChessPieceColor::White,
                    position: Square { row: 6, col },
                    before_position: None,
                },
            );
            col = col + 1;
        }
        let mut col: usize = 0;
        while col < 8
            invariant
                col <= 8,
                forall|i: int|
                    0 <= i < 64 ==> #[trigger] board@[i] == if i < 16 || (48 <= i < 56) || (56 <= i
                        < 56 + col) {
                        initial_cell(Square { row: (i / 8) as usize, col: (i % 8) as usize })
                    } else {
                        None::<ChessPiece>
                    },
            decreases 8 - col,
        {
            let s = Square { row: 7, col };
            if col == 5 || col == 6 {
                board[56 + col] = None;
            } else {
                let kind = if col == 0 || col == 7 {
                    ChessPieceType::Rook
                } else if col == 1 || col == 2 {
                    if col == 1 {
                        ChessPieceType::Knight
                    } else {
                        ChessPieceType::Bishop
                    }
                } else if col == 3 {
                    ChessPieceType::Queen
                } else {
                    ChessPieceType::King
                };
                board[56 + col] = Some(
                    ChessPiece {
                        piece: kind,
                        color: ChessPieceColor::White,
                        position: s,
                        before_position: None,
                    },
                );
            }
            col = col + 1;
        }
        let r = Chessboard {
            board,
            player_turn: ChessPieceColor::White,
            player1: Player { name: String::from_str("Blanco"), king_position: Square {
                row: 7,
                col: 4,
            } },
            player2: Player { name: String::from_str("Negro"), king_position: Square {
                row: 0,
                col: 4,
            } },
        };
        proof {
            assert(forall|s: Square| in_board(s) ==> #[trigger] cell(r@, s) == initial_cell(s)) by {
                assert(forall|s: Square|
                    in_board(s) ==> 0 <= idx_of(s) < 64 && (Square {
                        row: (idx_of(s) / 8) as usize,
                        col: (idx_of(s) % 8) as usize,
                    }) == s);
            }
            assert(board_ok(r@)) by {
                assert(forall|i: int|
                    0 <= i < 64 ==> #[trigger] r@.grid[i] == initial_cell(
                        Square { row: (i / 8) as usize, col: (i % 8) as usize },
                    ));
            }
        }
        r
    }
}

impl Chessboard {
    /// Attempts a real move from `from` to `to`. On an accepted move the
    /// state is replaced by the validated result and the outcome reports
    /// whether the opponent now stands in check or checkmate; on any
    /// rejection the state is left exactly unchanged and the outcome names
    /// the reason. Out-of-range coordinates fail closed as rejections.
    /// `promotion` is the piece kind a promoting pawn becomes.
    pub fn move_piece(&mut self, from: Square, to: Square, promotion: ChessPieceType) -> (r:
        Message)
        requires
            old(self).wf(),
            !(promotion is King),
            !(promotion is Pawn),
        ensures
            final(self).wf(),
            match move_validation(old(self)@, from, to, promotion) {
                Err(e) => r == e && *final(self) == *old(self),
                Ok(m2) => {
                    &&& final(self)@ == m2
                    &&& final(self).player1.name == old(self).player1.name
                    &&& final(self).player2.name == old(self).player2.name
                    &&& r == (if !in_check(m2, m2.turn) {
                        Message::Success
                    } else if checkmate_of(m2, m2.turn, first_attacker(m2, m2.turn)) {
                        Message::CheckMate
                    } else {
                        Message::Check
                    })
                },
            },
            is_accepted(r) <==> move_validation(old(self)@, from, to, promotion) is Ok,
    {
        let ghost m = old(self)@;
        if from.row >= 8 || from.col >= 8 {
            return Message::NoPieceInStartingPosition;
        }
        if to.row >= 8 || to.col >= 8 {
            return Message::CannotMovePieceToPosition;
        }
        let from_position = self.board[from.row * 8 + from.col];
        let to_position = self.board[to.row * 8 + to.col];
        proof {
            assert(from_position == cell(m, from));
            assert(to_position == cell(m, to));
            match from_position {
                Some(p) => {
                    assert(in_board(p.position) && idx_of(p.position) == idx_of(from));
                    assert(cell(m, p.position) == Some(p));
                },
                None => {},
            }
        }
        let validation_result = validate_move(&*self, &from_position, &to_position, to, promotion);
        match validation_result {
            Ok(new_chessboard) => {
                *self = new_chessboard;
                let check_result = is_check(&*self, self.player_turn);
                match check_result {
                    Some(attacker_position) => {
                        proof {
                            assert(is_first_attacker(self@, self@.turn, attacker_position));
                            lemma_first_attacker_unique(
                                self@,
                                self@.turn,
                                attacker_position,
                                first_attacker(self@, self@.turn),
                            );
                        }
                        if is_checkmate(&*self, self.player_turn, attacker_position) {
                            Message::CheckMate
                        } else {
                            Message::Check
                        }
                    },
                    None => Message::Success,
                }
            },
            Err(message) => {
                proof {
                    assert(!is_accepted(message));
                }
                message
            },
        }
    }
}

} // verus!
