//! Board mutation: building the state after a move, real or speculative.
//! The routine copies the board, records the moved piece's previous position,
//! relocates it, promotes a pawn reaching the far rank, keeps the king cache
//! in sync, and flips the turn.

use vstd::prelude::*;

use crate::chessboard::{board_ok, cell, king_square, BoardModel, Chessboard};
use crate::piece_type::{
    idx_of, in_board, other_color, ChessPiece, ChessPieceColor, ChessPieceType, Message, Square,
};
use crate::player::Player;

verus! {

/// The far rank for a color: the rank whose reach promotes a pawn.
pub open spec fn promotion_rank(color: ChessPieceColor) -> int {
    match color {
        ChessPieceColor::White => 0,
        ChessPieceColor::Black => 7,
    }
}

/// The piece as it stands after relocating to `to`: previous position
/// recorded, position updated, and a pawn on its far rank replaced by the
/// chosen promotion kind.
pub open spec fn moved_piece(p: ChessPiece, to: Square, promotion: ChessPieceType) -> ChessPiece {
    let relocated = ChessPiece {
        piece: p.piece,
        color: p.color,
        position: to,
        before_position: Some(p.position),
    };
    if p.piece is Pawn && to.row == promotion_rank(p.color) {
        ChessPiece { piece: promotion, ..relocated }
    } else {
        relocated
    }
}

/// The model after relocating `p` to `to`: destination written, origin
/// cleared, king cache updated when a king moved, turn flipped.
pub open spec fn model_after_move(
    m: BoardModel,
    p: ChessPiece,
    to: Square,
    promotion: ChessPieceType,
) -> BoardModel {
    BoardModel {
        grid: m.grid.update(idx_of(to), Some(moved_piece(p, to, promotion))).update(
            idx_of(p.position),
            None,
        ),
        turn: other_color(m.turn),
        white_king: if p.piece is King && p.color is White {
            to
        } else {
            m.white_king
        },
        black_king: if p.piece is King && p.color is Black {
            to
        } else {
            m.black_king
        },
    }
}

/// Applies the promotion policy to a relocated piece: a pawn standing on its
/// far rank becomes the chosen kind. The caller picks the kind — the
/// interactive collaborator for a committed move, a fixed queen for a
/// speculative probe — so a probe never blocks on input.
pub fn pawn_promotion(pawn_piece: ChessPiece, promotion: ChessPieceType) -> (r: ChessPiece)
    requires
        !(promotion is King),
        !(promotion is Pawn),
    ensures
        r == if pawn_piece.piece is Pawn && pawn_piece.position.row == promotion_rank(
            pawn_piece.color,
        ) {
            ChessPiece { piece: promotion, ..pawn_piece }
        } else {
            pawn_piece
        },
{
    let mut temp_pawn_piece = pawn_piece;
    if matches!(temp_pawn_piece.piece, ChessPieceType::Pawn) {
        let promote = match temp_pawn_piece.color {
            ChessPieceColor::White => temp_pawn_piece.position.row == 0,
            ChessPieceColor::Black => temp_pawn_piece.position.row == 7,
        };
        if promote {
            temp_pawn_piece.piece = promotion;
        }
    }
    temp_pawn_piece
}

/// A fresh game state in which `from_piece` has been relocated to `to`.
/// The result is exactly `model_after_move` of the old state; player names
/// carry over unchanged.
pub fn new_chessboard_instance_after_move(
    chessboard: &Chessboard,
    from_piece: &ChessPiece,
    to: Square,
    promotion: ChessPieceType,
) -> (r: Chessboard)
    requires
        in_board(from_piece.position),
        in_board(to),
        !(promotion is King),
        !(promotion is Pawn),
    ensures
        r@ == model_after_move(chessboard@, *from_piece, to, promotion),
        r.player1.name == chessboard.player1.name,
        r.player2.name == chessboard.player2.name,
{
    let mut temp_piece = *from_piece;
    let from = temp_piece.position;
    temp_piece.before_position = Some(from);
    temp_piece.position = to;

    let mut player1 = Player {
        name: chessboard.player1.name.clone(),
        king_position: chessboard.player1.king_position,
    };
    let mut player2 = Player {
        name: chessboard.player2.name.clone(),
        king_position: chessboard.player2.king_position,
    };
    if matches!(temp_piece.piece, ChessPieceType::King) {
        match temp_piece.color {
            ChessPieceColor::White => player1.king_position = to,
            ChessPieceColor::Black => player2.king_position = to,
        }
    }

    temp_piece = pawn_promotion(temp_piece, promotion);

    let mut board = chessboard.board;
    board[to.row * 8 + to.col] = Some(temp_piece);
    board[from.row * 8 + from.col] = None;

    let player_turn = match chessboard.player_turn {
        ChessPieceColor::White => ChessPieceColor::Black,
        ChessPieceColor::Black => ChessPieceColor::White,
    };

    Chessboard { board, player_turn, player1, player2 }
}

/// Relocation preserves well-formedness whenever the moved piece really
/// stands at its recorded square, the move goes somewhere else on the board,
/// the destination holds no king, and no promotion creates a king.
pub proof fn lemma_move_preserves_ok(
    m: BoardModel,
    p: ChessPiece,
    to: Square,
    promotion: ChessPieceType,
)
    requires
        board_ok(m),
        in_board(p.position),
        cell(m, p.position) == Some(p),
        in_board(to),
        to != p.position,
        !(cell(m, to) matches Some(q) && q.piece is King),
        !(promotion is King),
    ensures
        board_ok(model_after_move(m, p, to, promotion)),
        cell(model_after_move(m, p, to, promotion), to) == Some(moved_piece(p, to, promotion)),
        cell(model_after_move(m, p, to, promotion), p.position) is None,
{
    let m2 = model_after_move(m, p, to, promotion);
    assert(idx_of(to) != idx_of(p.position)) by {
        if idx_of(to) == idx_of(p.position) {
            lemma_idx_of_injective(to, p.position);
        }
    }
    assert forall|i: int| 0 <= i < 64 implies match #[trigger] m2.grid[i] {
        Some(q) => in_board(q.position) && idx_of(q.position) == i && (q.piece is King ==> i
            == idx_of(king_square(m2, q.color))),
        None => true,
    } by {
        if i == idx_of(p.position) {
        } else if i == idx_of(to) {
        } else {
            assert(m2.grid[i] == m.grid[i]);
            match m.grid[i] {
                Some(q) => {
                    if q.piece is King {
                        assert(i == idx_of(king_square(m, q.color)));
                        if p.piece is King && p.color == q.color {
                            assert(idx_of(king_square(m, p.color)) == idx_of(p.position));
                        }
                        assert(king_square(m2, q.color) == king_square(m, q.color));
                    }
                },
                None => {},
            }
        }
    }
    assert(in_board(m2.white_king) && crate::chessboard::is_king_cell(
        m2.grid[idx_of(m2.white_king)],
        ChessPieceColor::White,
    )) by {
        if p.piece is King && p.color is White {
        } else {
            assert(idx_of(m.white_king) != idx_of(to));
            assert(idx_of(m.white_king) != idx_of(p.position)) by {
                if idx_of(m.white_king) == idx_of(p.position) {
                    assert(cell(m, m.white_king) == cell(m, p.position));
                }
            }
        }
    }
    assert(in_board(m2.black_king) && crate::chessboard::is_king_cell(
        m2.grid[idx_of(m2.black_king)],
        ChessPieceColor::Black,
    )) by {
        if p.piece is King && p.color is Black {
        } else {
            assert(idx_of(m.black_king) != idx_of(to));
            assert(idx_of(m.black_king) != idx_of(p.position)) by {
                if idx_of(m.black_king) == idx_of(p.position) {
                    assert(cell(m, m.black_king) == cell(m, p.position));
                }
            }
        }
    }
}

/// Two on-board squares with the same row-major index are the same square.
pub proof fn lemma_idx_of_injective(a: Square, b: Square)
    requires
        in_board(a),
        in_board(b),
        idx_of(a) == idx_of(b),
    ensures
        a == b,
{
}

/// True exactly on the three acceptance outcomes; every other tag is a
/// rejection that leaves the committed state unchanged.
pub open spec fn is_accepted(message: Message) -> bool {
    message is Success || message is Check || message is CheckMate
}

/// Whether a move outcome reports an accepted move.
pub fn is_valid_move(message: &Message) -> (r: bool)
    ensures
        r == is_accepted(*message),
{
    matches!(message, Message::Success | Message::Check | Message::CheckMate)
}

} // verus!
