use chess_engine::chessboard::Chessboard;
use chess_engine::chessboard_validation::is_check;
use chess_engine::move_analysis::calculate_score;
use chess_engine::piece_type::{ChessPiece, ChessPieceColor, ChessPieceType, Message, Square};
use chess_engine::player::Player;

fn bsq(row: usize, col: usize) -> Square {
    Square { row, col }
}

fn piece_at(board: &Chessboard, row: usize, col: usize) -> Option<ChessPiece> {
    board.board[row * 8 + col]
}

fn custom_board(
    pieces: Vec<(ChessPieceType, ChessPieceColor, usize, usize)>,
    turn: ChessPieceColor,
    white_king: Square,
    black_king: Square,
) -> Chessboard {
    let mut board: [Option<ChessPiece>; 64] = [None; 64];
    for (kind, color, row, col) in pieces {
        board[row * 8 + col] = Some(ChessPiece {
            piece: kind,
            color,
            position: Square { row, col },
            before_position: None,
        });
    }
    Chessboard {
        board,
        player_turn: turn,
        player1: Player {
            name: "White".to_string(),
            king_position: white_king,
        },
        player2: Player {
            name: "Black".to_string(),
            king_position: black_king,
        },
    }
}

#[test]
fn opening_position_layout() {
    let board = Chessboard::new();
    assert_eq!(board.player_turn, ChessPieceColor::White);
    assert_eq!(board.player1.king_position, bsq(7, 4));
    assert_eq!(board.player2.king_position, bsq(0, 4));

    let black_rook = piece_at(&board, 0, 0).unwrap();
    assert_eq!(black_rook.piece, ChessPieceType::Rook);
    assert_eq!(black_rook.color, ChessPieceColor::Black);
    assert_eq!(black_rook.before_position, None);

    let black_king = piece_at(&board, 0, 4).unwrap();
    assert_eq!(black_king.piece, ChessPieceType::King);

    for col in 0..8 {
        assert_eq!(piece_at(&board, 1, col).unwrap().piece, ChessPieceType::Pawn);
        assert_eq!(piece_at(&board, 6, col).unwrap().piece, ChessPieceType::Pawn);
        for row in 2..6 {
            assert!(piece_at(&board, row, col).is_none());
        }
    }

    let white_queen = piece_at(&board, 7, 3).unwrap();
    assert_eq!(white_queen.piece, ChessPieceType::Queen);
    assert_eq!(white_queen.color, ChessPieceColor::White);
    // The king-side bishop and knight squares start open.
    assert!(piece_at(&board, 7, 5).is_none());
    assert!(piece_at(&board, 7, 6).is_none());
}

#[test]
fn message_texts_are_fixed() {
    assert_eq!(Message::Success.get_message(), "Movimiento realizado");
    assert_eq!(Message::Check.get_message(), "Jaque!");
    assert_eq!(Message::CheckMate.get_message(), "Jaque Mate");
    assert_eq!(
        Message::NoPieceInStartingPosition.get_message(),
        "No hay una pieza en la posici\u{f3}n de inicio"
    );
    assert_eq!(
        Message::CannotCastle.get_message(),
        "No puedes realizar enroque"
    );
    assert_eq!(
        Message::PieceBlockingTheWay.get_message(),
        "Hay una pieza en el camino"
    );
}

#[test]
fn piece_glyphs() {
    let white_king = ChessPiece {
        piece: ChessPieceType::King,
        color: ChessPieceColor::White,
        position: bsq(7, 4),
        before_position: None,
    };
    assert_eq!(white_king.to_char(), "\u{1b}[97mR\u{1b}[0m");
    let black_pawn = ChessPiece {
        piece: ChessPieceType::Pawn,
        color: ChessPieceColor::Black,
        position: bsq(1, 0),
        before_position: None,
    };
    assert_eq!(black_pawn.to_char(), "\u{1b}[90mP\u{1b}[0m");
}

#[test]
fn opening_material_score() {
    // White starts without the king-side bishop and knight, six points down.
    let board = Chessboard::new();
    assert_eq!(calculate_score(&board), -6);
}

#[test]
fn score_counts_material_by_color() {
    let board = custom_board(
        vec![
            (ChessPieceType::King, ChessPieceColor::White, 7, 7),
            (ChessPieceType::King, ChessPieceColor::Black, 0, 0),
            (ChessPieceType::Queen, ChessPieceColor::White, 4, 4),
            (ChessPieceType::Pawn, ChessPieceColor::Black, 2, 2),
        ],
        ChessPieceColor::White,
        bsq(7, 7),
        bsq(0, 0),
    );
    assert_eq!(calculate_score(&board), 8);
}

#[test]
fn no_check_in_opening_position() {
    let board = Chessboard::new();
    assert!(is_check(&board, ChessPieceColor::White).is_none());
    assert!(is_check(&board, ChessPieceColor::Black).is_none());
}

#[test]
fn rook_gives_check_along_open_file() {
    let board = custom_board(
        vec![
            (ChessPieceType::King, ChessPieceColor::White, 7, 7),
            (ChessPieceType::King, ChessPieceColor::Black, 0, 4),
            (ChessPieceType::Rook, ChessPieceColor::White, 5, 4),
        ],
        ChessPieceColor::Black,
        bsq(7, 7),
        bsq(0, 4),
    );
    assert_eq!(is_check(&board, ChessPieceColor::Black), Some(bsq(5, 4)));
}

#[test]
fn interposed_piece_blocks_check() {
    let board = custom_board(
        vec![
            (ChessPieceType::King, ChessPieceColor::White, 7, 7),
            (ChessPieceType::King, ChessPieceColor::Black, 0, 4),
            (ChessPieceType::Rook, ChessPieceColor::White, 5, 4),
            (ChessPieceType::Pawn, ChessPieceColor::Black, 3, 4),
        ],
        ChessPieceColor::Black,
        bsq(7, 7),
        bsq(0, 4),
    );
    assert!(is_check(&board, ChessPieceColor::Black).is_none());
}
