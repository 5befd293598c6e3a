use chess_engine::chessboard::Chessboard;
use chess_engine::piece_type::{ChessPiece, ChessPieceColor, ChessPieceType, Message, Square};
use chess_engine::player::Player;
use chess_engine::chessboard_validation::validate_move;
use chess_engine::utilities::{is_valid_move, new_chessboard_instance_after_move, pawn_promotion};

fn msq(row: usize, col: usize) -> Square {
    Square { row, col }
}

fn moves_board(
    pieces: Vec<(ChessPieceType, ChessPieceColor, usize, usize)>,
    turn: ChessPieceColor,
    white_king: Square,
    black_king: Square,
) -> Chessboard {
    let mut board: [Option<ChessPiece>; 64] = [None; 64];
    for (kind, color, row, col) in pieces {
        board[row * 8 + col] = Some(ChessPiece {
            piece: kind,
            color,
            position: Square { row, col },
            before_position: None,
        });
    }
    Chessboard {
        board,
        player_turn: turn,
        player1: Player {
            name: "White".to_string(),
            king_position: white_king,
        },
        player2: Player {
            name: "Black".to_string(),
            king_position: black_king,
        },
    }
}

fn states_equal(a: &Chessboard, b: &Chessboard) -> bool {
    a.board == b.board
        && a.player_turn == b.player_turn
        && a.player1.king_position == b.player1.king_position
        && a.player2.king_position == b.player2.king_position
        && a.player1.name == b.player1.name
        && a.player2.name == b.player2.name
}

#[test]
fn pawn_advance_succeeds_and_flips_turn() {
    let mut board = Chessboard::new();
    let outcome = board.move_piece(msq(6, 4), msq(4, 4), ChessPieceType::Queen);
    assert_eq!(outcome, Message::Success);
    assert_eq!(board.player_turn, ChessPieceColor::Black);
    let pawn = board.board[4 * 8 + 4].unwrap();
    assert_eq!(pawn.piece, ChessPieceType::Pawn);
    assert_eq!(pawn.position, msq(4, 4));
    assert_eq!(pawn.before_position, Some(msq(6, 4)));
    assert!(board.board[6 * 8 + 4].is_none());
}

#[test]
fn rejection_leaves_state_unchanged() {
    let mut board = Chessboard::new();
    let before = board.clone();
    // The rook is blocked by its own pawn.
    let outcome = board.move_piece(msq(7, 0), msq(5, 0), ChessPieceType::Queen);
    assert_eq!(outcome, Message::PieceBlockingTheWay);
    assert!(states_equal(&before, &board));
}

#[test]
fn empty_origin_is_rejected() {
    let mut board = Chessboard::new();
    let before = board.clone();
    let outcome = board.move_piece(msq(4, 4), msq(3, 4), ChessPieceType::Queen);
    assert_eq!(outcome, Message::NoPieceInStartingPosition);
    assert!(states_equal(&before, &board));
}

#[test]
fn out_of_range_coordinates_fail_closed() {
    let mut board = Chessboard::new();
    let before = board.clone();
    assert_eq!(
        board.move_piece(msq(8, 0), msq(0, 0), ChessPieceType::Queen),
        Message::NoPieceInStartingPosition
    );
    assert_eq!(
        board.move_piece(msq(6, 0), msq(0, 8), ChessPieceType::Queen),
        Message::CannotMovePieceToPosition
    );
    assert!(states_equal(&before, &board));
}

#[test]
fn opponent_piece_cannot_be_moved() {
    let mut board = Chessboard::new();
    let outcome = board.move_piece(msq(1, 0), msq(2, 0), ChessPieceType::Queen);
    assert_eq!(outcome, Message::PieceNotYourColor);
}

#[test]
fn own_color_destination_is_rejected() {
    let mut board = Chessboard::new();
    let outcome = board.move_piece(msq(7, 0), msq(6, 0), ChessPieceType::Queen);
    assert_eq!(outcome, Message::CannotMoveToOccupiedSameColor);
}

#[test]
fn king_capture_is_rejected() {
    let mut board = moves_board(
        vec![
            (ChessPieceType::King, ChessPieceColor::White, 7, 7),
            (ChessPieceType::King, ChessPieceColor::Black, 3, 4),
            (ChessPieceType::Queen, ChessPieceColor::White, 3, 0),
        ],
        ChessPieceColor::White,
        msq(7, 7),
        msq(3, 4),
    );
    let outcome = board.move_piece(msq(3, 0), msq(3, 4), ChessPieceType::Queen);
    assert_eq!(outcome, Message::CannotCaptureKing);
}

#[test]
fn knight_geometry_decides_acceptance() {
    let mut board = Chessboard::new();
    let outcome = board.move_piece(msq(7, 1), msq(5, 0), ChessPieceType::Queen);
    assert_eq!(outcome, Message::Success);
    let mut board = Chessboard::new();
    let outcome = board.move_piece(msq(7, 1), msq(5, 1), ChessPieceType::Queen);
    assert_eq!(outcome, Message::CannotMovePieceToPosition);
}

#[test]
fn pinned_piece_cannot_expose_king() {
    let mut board = moves_board(
        vec![
            (ChessPieceType::King, ChessPieceColor::White, 7, 4),
            (ChessPieceType::Rook, ChessPieceColor::White, 6, 4),
            (ChessPieceType::Queen, ChessPieceColor::Black, 4, 4),
            (ChessPieceType::King, ChessPieceColor::Black, 0, 0),
        ],
        ChessPieceColor::White,
        msq(7, 4),
        msq(0, 0),
    );
    let outcome = board.move_piece(msq(6, 4), msq(6, 0), ChessPieceType::Queen);
    assert_eq!(outcome, Message::CannotLeaveKingInCheck);
}

#[test]
fn pawn_cannot_capture_straight_ahead() {
    let mut board = moves_board(
        vec![
            (ChessPieceType::King, ChessPieceColor::White, 7, 7),
            (ChessPieceType::King, ChessPieceColor::Black, 0, 0),
            (ChessPieceType::Pawn, ChessPieceColor::White, 6, 4),
            (ChessPieceType::Pawn, ChessPieceColor::Black, 5, 4),
        ],
        ChessPieceColor::White,
        msq(7, 7),
        msq(0, 0),
    );
    let outcome = board.move_piece(msq(6, 4), msq(5, 4), ChessPieceType::Queen);
    assert_eq!(outcome, Message::CannotMovePieceToPosition);
}

#[test]
fn pawn_captures_diagonally() {
    let mut board = moves_board(
        vec![
            (ChessPieceType::King, ChessPieceColor::White, 7, 7),
            (ChessPieceType::King, ChessPieceColor::Black, 0, 0),
            (ChessPieceType::Pawn, ChessPieceColor::White, 6, 4),
            (ChessPieceType::Knight, ChessPieceColor::Black, 5, 3),
        ],
        ChessPieceColor::White,
        msq(7, 7),
        msq(0, 0),
    );
    let outcome = board.move_piece(msq(6, 4), msq(5, 3), ChessPieceType::Queen);
    assert_eq!(outcome, Message::Success);
    let pawn = board.board[5 * 8 + 3].unwrap();
    assert_eq!(pawn.piece, ChessPieceType::Pawn);
    assert_eq!(pawn.color, ChessPieceColor::White);
}

#[test]
fn check_is_reported() {
    let mut board = moves_board(
        vec![
            (ChessPieceType::King, ChessPieceColor::White, 7, 7),
            (ChessPieceType::King, ChessPieceColor::Black, 0, 4),
            (ChessPieceType::Rook, ChessPieceColor::White, 1, 0),
        ],
        ChessPieceColor::White,
        msq(7, 7),
        msq(0, 4),
    );
    let outcome = board.move_piece(msq(1, 0), msq(0, 0), ChessPieceType::Queen);
    assert_eq!(outcome, Message::Check);
}

#[test]
fn promotion_produces_the_chosen_piece() {
    let mut board = moves_board(
        vec![
            (ChessPieceType::King, ChessPieceColor::White, 7, 4),
            (ChessPieceType::King, ChessPieceColor::Black, 0, 7),
            (ChessPieceType::Pawn, ChessPieceColor::White, 1, 0),
        ],
        ChessPieceColor::White,
        msq(7, 4),
        msq(0, 7),
    );
    let outcome = board.move_piece(msq(1, 0), msq(0, 0), ChessPieceType::Knight);
    assert!(is_valid_move(&outcome));
    let promoted = board.board[0].unwrap();
    assert_eq!(promoted.piece, ChessPieceType::Knight);
    assert_ne!(promoted.piece, ChessPieceType::Pawn);
    assert_ne!(promoted.piece, ChessPieceType::King);
    assert_eq!(promoted.color, ChessPieceColor::White);
}

#[test]
fn pawn_promotion_policy_applies_on_far_rank_only() {
    let on_far_rank = ChessPiece {
        piece: ChessPieceType::Pawn,
        color: ChessPieceColor::White,
        position: msq(0, 3),
        before_position: Some(msq(1, 3)),
    };
    let promoted = pawn_promotion(on_far_rank, ChessPieceType::Queen);
    assert_eq!(promoted.piece, ChessPieceType::Queen);

    let mid_board = ChessPiece {
        piece: ChessPieceType::Pawn,
        color: ChessPieceColor::White,
        position: msq(3, 3),
        before_position: Some(msq(4, 3)),
    };
    let unchanged = pawn_promotion(mid_board, ChessPieceType::Queen);
    assert_eq!(unchanged.piece, ChessPieceType::Pawn);
}

#[test]
fn validate_move_accepts_a_plain_advance() {
    let board = Chessboard::new();
    let from_cell = board.board[6 * 8 + 4];
    let to_cell = board.board[4 * 8 + 4];
    let result = validate_move(&board, &from_cell, &to_cell, msq(4, 4), ChessPieceType::Queen);
    let next = result.expect("a plain pawn advance must validate");
    assert_eq!(next.player_turn, ChessPieceColor::Black);
    assert!(next.board[4 * 8 + 4].is_some());
    assert!(next.board[6 * 8 + 4].is_none());
}

#[test]
fn validate_move_rejects_an_empty_origin() {
    let board = Chessboard::new();
    let from_cell = board.board[4 * 8 + 4];
    let to_cell = board.board[3 * 8 + 4];
    let result = validate_move(&board, &from_cell, &to_cell, msq(3, 4), ChessPieceType::Queen);
    assert_eq!(result.err(), Some(Message::NoPieceInStartingPosition));
}

#[test]
fn mutation_records_the_previous_position_and_flips_the_turn() {
    let board = moves_board(
        vec![
            (ChessPieceType::King, ChessPieceColor::White, 7, 4),
            (ChessPieceType::King, ChessPieceColor::Black, 0, 4),
            (ChessPieceType::Rook, ChessPieceColor::White, 4, 0),
        ],
        ChessPieceColor::White,
        msq(7, 4),
        msq(0, 4),
    );
    let rook = board.board[4 * 8].unwrap();
    let next = new_chessboard_instance_after_move(&board, &rook, msq(4, 7), ChessPieceType::Queen);
    let moved = next.board[4 * 8 + 7].unwrap();
    assert_eq!(moved.position, msq(4, 7));
    assert_eq!(moved.before_position, Some(msq(4, 0)));
    assert!(next.board[4 * 8].is_none());
    assert_eq!(next.player_turn, ChessPieceColor::Black);
    // Moving a king updates that side's cached king square.
    let king = next.board[7 * 8 + 4].unwrap();
    let after_king_move =
        new_chessboard_instance_after_move(&next, &king, msq(7, 5), ChessPieceType::Queen);
    assert_eq!(after_king_move.player1.king_position, msq(7, 5));
}
