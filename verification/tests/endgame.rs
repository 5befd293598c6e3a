use chess_engine::chessboard::Chessboard;
use chess_engine::chessboard_validation::{is_check, is_checkmate};
use chess_engine::move_analysis::{get_best_move, has_legal_move};
use chess_engine::piece_type::{ChessPiece, ChessPieceColor, ChessPieceType, Message, Square};
use chess_engine::player::Player;

fn esq(row: usize, col: usize) -> Square {
    Square { row, col }
}

fn endgame_board(
    pieces: Vec<(ChessPieceType, ChessPieceColor, usize, usize)>,
    turn: ChessPieceColor,
    white_king: Square,
    black_king: Square,
) -> Chessboard {
    let mut board: [Option<ChessPiece>; 64] = [None; 64];
    for (kind, color, row, col) in pieces {
        board[row * 8 + col] = Some(ChessPiece {
            piece: kind,
            color,
            position: Square { row, col },
            before_position: None,
        });
    }
    Chessboard {
        board,
        player_turn: turn,
        player1: Player {
            name: "White".to_string(),
            king_position: white_king,
        },
        player2: Player {
            name: "Black".to_string(),
            king_position: black_king,
        },
    }
}

#[test]
fn queen_mates_the_cornered_king() {
    // A lone Black king on (7, 4), the White queen on (6, 4) protected by
    // the White king: every escape square stays covered, the queen cannot be
    // captured safely, and Black has nothing to interpose.
    let board = endgame_board(
        vec![
            (ChessPieceType::King, ChessPieceColor::Black, 7, 4),
            (ChessPieceType::Queen, ChessPieceColor::White, 6, 4),
            (ChessPieceType::King, ChessPieceColor::White, 5, 4),
        ],
        ChessPieceColor::Black,
        esq(5, 4),
        esq(7, 4),
    );
    let attacker = is_check(&board, ChessPieceColor::Black);
    assert_eq!(attacker, Some(esq(6, 4)));
    assert!(is_checkmate(&board, ChessPieceColor::Black, esq(6, 4)));
}

#[test]
fn protected_queen_delivers_mate_through_move_piece() {
    let mut board = endgame_board(
        vec![
            (ChessPieceType::King, ChessPieceColor::Black, 7, 4),
            (ChessPieceType::Queen, ChessPieceColor::White, 6, 1),
            (ChessPieceType::King, ChessPieceColor::White, 5, 4),
        ],
        ChessPieceColor::White,
        esq(5, 4),
        esq(7, 4),
    );
    let outcome = board.move_piece(esq(6, 1), esq(6, 4), ChessPieceType::Queen);
    assert_eq!(outcome, Message::CheckMate);
}

#[test]
fn unprotected_queen_gives_check_only() {
    // Without the protecting king nearby, the Black king simply captures the
    // queen: check, not checkmate.
    let board = endgame_board(
        vec![
            (ChessPieceType::King, ChessPieceColor::Black, 7, 4),
            (ChessPieceType::Queen, ChessPieceColor::White, 6, 4),
            (ChessPieceType::King, ChessPieceColor::White, 0, 0),
        ],
        ChessPieceColor::Black,
        esq(0, 0),
        esq(7, 4),
    );
    assert_eq!(is_check(&board, ChessPieceColor::Black), Some(esq(6, 4)));
    assert!(!is_checkmate(&board, ChessPieceColor::Black, esq(6, 4)));
}

#[test]
fn interposition_prevents_checkmate() {
    // The Black rook can step between the White rook and the Black king.
    let board = endgame_board(
        vec![
            (ChessPieceType::King, ChessPieceColor::Black, 0, 0),
            (ChessPieceType::Rook, ChessPieceColor::White, 0, 7),
            (ChessPieceType::Rook, ChessPieceColor::White, 1, 7),
            (ChessPieceType::King, ChessPieceColor::White, 7, 7),
            (ChessPieceType::Rook, ChessPieceColor::Black, 5, 3),
        ],
        ChessPieceColor::Black,
        esq(7, 7),
        esq(0, 0),
    );
    assert_eq!(is_check(&board, ChessPieceColor::Black), Some(esq(0, 7)));
    assert!(!is_checkmate(&board, ChessPieceColor::Black, esq(0, 7)));
}

#[test]
fn back_rank_mate_is_detected() {
    // Two rook files, no interposition, no capture: checkmate.
    let board = endgame_board(
        vec![
            (ChessPieceType::King, ChessPieceColor::Black, 0, 0),
            (ChessPieceType::Rook, ChessPieceColor::White, 0, 7),
            (ChessPieceType::Rook, ChessPieceColor::White, 1, 7),
            (ChessPieceType::King, ChessPieceColor::White, 7, 7),
        ],
        ChessPieceColor::Black,
        esq(7, 7),
        esq(0, 0),
    );
    assert_eq!(is_check(&board, ChessPieceColor::Black), Some(esq(0, 7)));
    assert!(is_checkmate(&board, ChessPieceColor::Black, esq(0, 7)));
}

#[test]
fn kingside_castling_from_the_opening() {
    let mut board = Chessboard::new();
    let outcome = board.move_piece(esq(7, 4), esq(7, 6), ChessPieceType::Queen);
    assert_eq!(outcome, Message::Success);

    let king = board.board[7 * 8 + 6].unwrap();
    assert_eq!(king.piece, ChessPieceType::King);
    assert_eq!(king.color, ChessPieceColor::White);
    let rook = board.board[7 * 8 + 5].unwrap();
    assert_eq!(rook.piece, ChessPieceType::Rook);
    assert_eq!(rook.color, ChessPieceColor::White);
    assert!(board.board[7 * 8 + 4].is_none());
    assert!(board.board[7 * 8 + 7].is_none());
    assert_eq!(board.player1.king_position, esq(7, 6));
    // The turn flipped exactly once across both relocations.
    assert_eq!(board.player_turn, ChessPieceColor::Black);
}

#[test]
fn queenside_castling_is_blocked_in_the_opening() {
    let mut board = Chessboard::new();
    let outcome = board.move_piece(esq(7, 4), esq(7, 2), ChessPieceType::Queen);
    assert_eq!(outcome, Message::CannotCastle);
    assert_eq!(board.player_turn, ChessPieceColor::White);
}

#[test]
fn castling_needs_an_unmoved_king() {
    let mut board = Chessboard::new();
    assert_eq!(
        board.move_piece(esq(7, 4), esq(7, 5), ChessPieceType::Queen),
        Message::Success
    );
    assert_eq!(
        board.move_piece(esq(1, 0), esq(2, 0), ChessPieceType::Queen),
        Message::Success
    );
    assert_eq!(
        board.move_piece(esq(7, 5), esq(7, 4), ChessPieceType::Queen),
        Message::Success
    );
    assert_eq!(
        board.move_piece(esq(2, 0), esq(3, 0), ChessPieceType::Queen),
        Message::Success
    );
    let outcome = board.move_piece(esq(7, 4), esq(7, 6), ChessPieceType::Queen);
    assert_eq!(outcome, Message::CannotCastle);
}

#[test]
fn search_returns_the_only_legal_move() {
    // Black's lone king has a single safe square: the search must find it.
    let board = endgame_board(
        vec![
            (ChessPieceType::King, ChessPieceColor::Black, 0, 0),
            (ChessPieceType::Rook, ChessPieceColor::White, 1, 7),
            (ChessPieceType::King, ChessPieceColor::White, 7, 7),
        ],
        ChessPieceColor::Black,
        esq(7, 7),
        esq(0, 0),
    );
    let (from, to) = get_best_move(&board, 1);
    assert_eq!(from, esq(0, 0));
    assert_eq!(to, esq(0, 1));
}

#[test]
fn search_picks_a_legal_move_from_the_opening() {
    let mut board = Chessboard::new();
    let (from, to) = get_best_move(&board, 2);
    let outcome = board.move_piece(from, to, ChessPieceType::Queen);
    assert!(
        outcome == Message::Success || outcome == Message::Check || outcome == Message::CheckMate
    );
}

#[test]
fn legal_move_detection_separates_play_from_stalemate() {
    let opening = Chessboard::new();
    assert!(has_legal_move(&opening));

    // A classic stalemate: the cornered Black king is not in check, yet all
    // of its neighbors are covered by the White queen.
    let stalemate = endgame_board(
        vec![
            (ChessPieceType::King, ChessPieceColor::Black, 0, 0),
            (ChessPieceType::Queen, ChessPieceColor::White, 1, 2),
            (ChessPieceType::King, ChessPieceColor::White, 7, 7),
        ],
        ChessPieceColor::Black,
        esq(7, 7),
        esq(0, 0),
    );
    assert!(is_check(&stalemate, ChessPieceColor::Black).is_none());
    assert!(!has_legal_move(&stalemate));
}

#[test]
fn depth_one_search_takes_the_hanging_queen() {
    // Capturing the queen is the only move that changes the material
    // balance in White's favor; at depth one the search must choose it.
    let board = endgame_board(
        vec![
            (ChessPieceType::King, ChessPieceColor::White, 7, 7),
            (ChessPieceType::King, ChessPieceColor::Black, 0, 0),
            (ChessPieceType::Rook, ChessPieceColor::White, 3, 3),
            (ChessPieceType::Queen, ChessPieceColor::Black, 3, 6),
        ],
        ChessPieceColor::White,
        esq(7, 7),
        esq(0, 0),
    );
    let (from, to) = get_best_move(&board, 1);
    assert_eq!(from, esq(3, 3));
    assert_eq!(to, esq(3, 6));
}
