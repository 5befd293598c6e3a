use chess_engine::piece_type::{ChessPieceColor, Square};
use chess_engine::routes_moves::{
    bishop_route_moves, king_route_moves, knight_route_moves, pawn_route_capture, pawn_route_move,
    queen_route_moves, rook_route_moves,
};
use chess_engine::allowed_moves::{
    bishop_allowed_moves, king_allowed_moves, knight_allowed_moves, pawn_all_allowed_move,
    pawn_allowed_move, queen_allowed_moves, rook_allowed_moves,
};

fn rsq(row: usize, col: usize) -> Square {
    Square { row, col }
}

#[test]
fn rook_route_travel_order_rightward() {
    let route = rook_route_moves(rsq(0, 0), rsq(0, 3));
    assert_eq!(route, vec![rsq(0, 1), rsq(0, 2), rsq(0, 3)]);
}

#[test]
fn rook_route_travel_order_leftward() {
    let route = rook_route_moves(rsq(0, 3), rsq(0, 0));
    assert_eq!(route, vec![rsq(0, 2), rsq(0, 1), rsq(0, 0)]);
}

#[test]
fn rook_route_vertical_upward() {
    let route = rook_route_moves(rsq(5, 2), rsq(2, 2));
    assert_eq!(route, vec![rsq(4, 2), rsq(3, 2), rsq(2, 2)]);
}

#[test]
fn rook_route_rejects_diagonal() {
    assert!(rook_route_moves(rsq(0, 0), rsq(3, 3)).is_empty());
}

#[test]
fn rook_route_rejects_same_square() {
    assert!(rook_route_moves(rsq(4, 4), rsq(4, 4)).is_empty());
}

#[test]
fn rook_route_rejects_off_board() {
    assert!(rook_route_moves(rsq(0, 0), rsq(0, 8)).is_empty());
}

#[test]
fn bishop_route_travel_order() {
    let route = bishop_route_moves(rsq(7, 0), rsq(4, 3));
    assert_eq!(route, vec![rsq(6, 1), rsq(5, 2), rsq(4, 3)]);
}

#[test]
fn bishop_route_rejects_straight_line() {
    assert!(bishop_route_moves(rsq(3, 3), rsq(3, 6)).is_empty());
}

#[test]
fn king_route_adjacent_only() {
    assert_eq!(king_route_moves(rsq(4, 4), rsq(5, 5)), vec![rsq(5, 5)]);
    assert!(king_route_moves(rsq(4, 4), rsq(6, 4)).is_empty());
    assert!(king_route_moves(rsq(4, 4), rsq(4, 4)).is_empty());
}

#[test]
fn knight_route_l_shapes() {
    assert_eq!(knight_route_moves(rsq(4, 4), rsq(6, 5)), vec![rsq(6, 5)]);
    assert_eq!(knight_route_moves(rsq(4, 4), rsq(3, 2)), vec![rsq(3, 2)]);
    assert!(knight_route_moves(rsq(4, 4), rsq(5, 5)).is_empty());
}

#[test]
fn queen_route_prefers_rook_line() {
    assert_eq!(
        queen_route_moves(rsq(0, 0), rsq(0, 2)),
        vec![rsq(0, 1), rsq(0, 2)]
    );
    assert_eq!(
        queen_route_moves(rsq(0, 0), rsq(2, 2)),
        vec![rsq(1, 1), rsq(2, 2)]
    );
    assert!(queen_route_moves(rsq(0, 0), rsq(1, 2)).is_empty());
}

#[test]
fn white_pawn_single_and_double_moves() {
    assert_eq!(
        pawn_route_move(rsq(6, 4), rsq(5, 4), ChessPieceColor::White),
        vec![rsq(5, 4)]
    );
    assert_eq!(
        pawn_route_move(rsq(6, 4), rsq(4, 4), ChessPieceColor::White),
        vec![rsq(5, 4), rsq(4, 4)]
    );
    assert!(pawn_route_move(rsq(5, 4), rsq(3, 4), ChessPieceColor::White).is_empty());
}

#[test]
fn black_pawn_single_and_double_moves() {
    assert_eq!(
        pawn_route_move(rsq(1, 2), rsq(2, 2), ChessPieceColor::Black),
        vec![rsq(2, 2)]
    );
    assert_eq!(
        pawn_route_move(rsq(1, 2), rsq(3, 2), ChessPieceColor::Black),
        vec![rsq(2, 2), rsq(3, 2)]
    );
    assert!(pawn_route_move(rsq(1, 2), rsq(0, 2), ChessPieceColor::Black).is_empty());
}

#[test]
fn pawn_capture_is_diagonal_only() {
    assert_eq!(
        pawn_route_capture(rsq(6, 4), rsq(5, 3), ChessPieceColor::White),
        vec![rsq(5, 3)]
    );
    assert_eq!(
        pawn_route_capture(rsq(6, 4), rsq(5, 5), ChessPieceColor::White),
        vec![rsq(5, 5)]
    );
    assert!(pawn_route_capture(rsq(6, 4), rsq(5, 4), ChessPieceColor::White).is_empty());
    assert_eq!(
        pawn_route_capture(rsq(1, 1), rsq(2, 0), ChessPieceColor::Black),
        vec![rsq(2, 0)]
    );
}

#[test]
fn routes_stay_on_board_from_the_edge() {
    // A route never contains an off-board square, whatever the direction.
    for r in 0..8usize {
        for c in 0..8usize {
            for route in [
                rook_route_moves(rsq(0, 0), rsq(r, c)),
                bishop_route_moves(rsq(7, 7), rsq(r, c)),
                king_route_moves(rsq(0, 7), rsq(r, c)),
                knight_route_moves(rsq(7, 0), rsq(r, c)),
            ] {
                for s in route {
                    assert!(s.row < 8 && s.col < 8);
                }
            }
        }
    }
}

#[test]
fn king_allowed_moves_in_corner() {
    // The three on-board neighbors, in row-major order, each once.
    let moves = king_allowed_moves(rsq(0, 0));
    assert_eq!(moves, vec![rsq(0, 1), rsq(1, 0), rsq(1, 1)]);
}

#[test]
fn king_allowed_moves_in_center() {
    let moves = king_allowed_moves(rsq(4, 4));
    assert_eq!(moves.len(), 8);
    for (i, a) in moves.iter().enumerate() {
        for b in moves.iter().skip(i + 1) {
            assert_ne!(a, b);
        }
    }
}

#[test]
fn rook_allowed_moves_are_fourteen_distinct_squares() {
    // The rest of the file from top to bottom, then the rest of the rank
    // from left to right.
    let moves = rook_allowed_moves(rsq(0, 0));
    assert_eq!(moves.len(), 14);
    let expected: Vec<Square> = (1..8)
        .map(|r| rsq(r, 0))
        .chain((1..8).map(|c| rsq(0, c)))
        .collect();
    assert_eq!(moves, expected);
    let mid = rook_allowed_moves(rsq(3, 5));
    assert_eq!(mid.len(), 14);
    for (i, a) in mid.iter().enumerate() {
        for b in mid.iter().skip(i + 1) {
            assert_ne!(a, b);
        }
    }
}

#[test]
fn knight_allowed_moves_in_center() {
    let moves = knight_allowed_moves(rsq(4, 4));
    assert_eq!(moves.len(), 8);
    assert!(moves.contains(&rsq(2, 3)));
    assert!(moves.contains(&rsq(6, 5)));
}

#[test]
fn knight_allowed_moves_in_corner_offset_order() {
    // The offset table runs (2,1), (2,-1), (-2,1), (-2,-1), (1,2), (1,-2),
    // (-1,2), (-1,-2); from the corner only the first and fifth land on the
    // board, in that order.
    let moves = knight_allowed_moves(rsq(0, 0));
    assert_eq!(moves, vec![rsq(2, 1), rsq(1, 2)]);
}

#[test]
fn bishop_allowed_moves_walk_the_four_rays_outward() {
    // Up-left, down-right, up-right, then down-left, each ray nearest first.
    let moves = bishop_allowed_moves(rsq(4, 4));
    let expected = vec![
        rsq(3, 3),
        rsq(2, 2),
        rsq(1, 1),
        rsq(0, 0),
        rsq(5, 5),
        rsq(6, 6),
        rsq(7, 7),
        rsq(3, 5),
        rsq(2, 6),
        rsq(1, 7),
        rsq(5, 3),
        rsq(6, 2),
        rsq(7, 1),
    ];
    assert_eq!(moves, expected);
}

#[test]
fn queen_allowed_moves_concatenate_rook_then_bishop() {
    let queen = queen_allowed_moves(rsq(0, 0));
    let rook = rook_allowed_moves(rsq(0, 0));
    let bishop = bishop_allowed_moves(rsq(0, 0));
    assert_eq!(queen.len(), rook.len() + bishop.len());
    assert_eq!(&queen[..14], &rook[..]);
    assert_eq!(&queen[14..], &bishop[..]);
    for (i, a) in queen.iter().enumerate() {
        for b in queen.iter().skip(i + 1) {
            assert_ne!(a, b);
        }
    }
}

#[test]
fn pawn_all_allowed_moves_concatenate_forward_then_capture() {
    let all = pawn_all_allowed_move(rsq(6, 4), ChessPieceColor::White);
    assert_eq!(
        all,
        vec![rsq(5, 4), rsq(4, 4), rsq(5, 3), rsq(5, 5)]
    );
}

#[test]
fn pawn_allowed_move_sets() {
    let white_start = pawn_allowed_move(rsq(6, 0), ChessPieceColor::White);
    assert_eq!(white_start, vec![rsq(5, 0), rsq(4, 0)]);
    let white_mid = pawn_allowed_move(rsq(3, 0), ChessPieceColor::White);
    assert_eq!(white_mid, vec![rsq(2, 0)]);
    let black_start = pawn_allowed_move(rsq(1, 7), ChessPieceColor::Black);
    assert_eq!(black_start, vec![rsq(2, 7), rsq(3, 7)]);
}
