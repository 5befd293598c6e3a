//! Legality validation: whether a requested move is structurally legal and
//! leaves the mover's own king safe, check detection, castling, and
//! checkmate detection.

use vstd::prelude::*;

use crate::chessboard::{board_ok, cell, king_square, BoardModel, Chessboard};
use crate::piece_type::{
    dist, idx_of, in_board, other_color, ChessPiece, ChessPieceColor, ChessPieceType, Message,
    Square,
};
use crate::allowed_moves::king_allowed_moves;
use crate::piece_actions::PieceActions;
use crate::routes_moves::{
    coord_dist, king_reachable, lemma_route_in_board, piece_capture_route, piece_move_route,
};
use crate::utilities::{
    lemma_idx_of_injective, lemma_move_preserves_ok, model_after_move,
    new_chessboard_instance_after_move,
};

verus! {

/// True when some square of the route other than the destination itself is
/// occupied: the move cannot pass through.
pub open spec fn path_blocked(m: BoardModel, route: Seq<Square>, to: Square) -> bool {
    exists|k: int| 0 <= k < route.len() && route[k] != to && cell(m, #[trigger] route[k]) is Some
}

/// True when the piece standing on `from` attacks the king of `color`: it is
/// an enemy piece whose capture route toward that king is non-empty and
/// unobstructed.
pub open spec fn attacks(m: BoardModel, from: Square, color: ChessPieceColor) -> bool {
    let target = king_square(m, color);
    &&& in_board(from)
    &&& match cell(m, from) {
        Some(p) => p.color != color && piece_capture_route(p.piece, p.color, p.position, target).len()
            > 0 && !path_blocked(
            m,
            piece_capture_route(p.piece, p.color, p.position, target),
            target,
        ),
        None => false,
    }
}

/// The king of `color` is in check: some square attacks it.
pub open spec fn in_check(m: BoardModel, color: ChessPieceColor) -> bool {
    exists|s: Square| attacks(m, s, color)
}

/// `s` is the attacker found first in a row-major scan from (0, 0).
pub open spec fn is_first_attacker(m: BoardModel, color: ChessPieceColor, s: Square) -> bool {
    &&& attacks(m, s, color)
    &&& forall|t: Square| #[trigger] attacks(m, t, color) ==> idx_of(s) <= idx_of(t)
}

/// The attacker a row-major scan reports first.
pub open spec fn first_attacker(m: BoardModel, color: ChessPieceColor) -> Square {
    choose|s: Square| is_first_attacker(m, color, s)
}

/// A board in check has a first attacker: the scan order is a total order
/// on squares, so some attacker has the least row-major index.
pub proof fn lemma_in_check_has_first_attacker(m: BoardModel, color: ChessPieceColor)
    requires
        in_check(m, color),
    ensures
        is_first_attacker(m, color, first_attacker(m, color)),
{
    let w = choose|s: Square| attacks(m, s, color);
    let s_min = lemma_minimal_attacker_below(m, color, w);
    assert(is_first_attacker(m, color, s_min));
}

/// Finds an attacker no later in scan order than any other, starting the
/// descent from a known attacker.
proof fn lemma_minimal_attacker_below(m: BoardModel, color: ChessPieceColor, w: Square) -> (s:
    Square)
    requires
        attacks(m, w, color),
    ensures
        is_first_attacker(m, color, s),
    decreases idx_of(w),
{
    if exists|t: Square| attacks(m, t, color) && idx_of(t) < idx_of(w) {
        let t = choose|t: Square| attacks(m, t, color) && idx_of(t) < idx_of(w);
        lemma_minimal_attacker_below(m, color, t)
    } else {
        w
    }
}

/// At most one square is the first attacker.
pub proof fn lemma_first_attacker_unique(
    m: BoardModel,
    color: ChessPieceColor,
    s1: Square,
    s2: Square,
)
    requires
        is_first_attacker(m, color, s1),
        is_first_attacker(m, color, s2),
    ensures
        s1 == s2,
{
    lemma_idx_of_injective(s1, s2);
}

/// True when some square of `moves` other than `to` is occupied.
fn validate_piece_in_path(chessboard: &Chessboard, moves: &Vec<Square>, to: Square) -> (r: bool)
    requires
        forall|k: int| 0 <= k < moves@.len() ==> in_board(#[trigger] moves@[k]),
    ensures
        r == path_blocked(chessboard@, moves@, to),
{
    let mut k: usize = 0;
    while k < moves.len()
        invariant
            forall|j: int| 0 <= j < moves@.len() ==> in_board(#[trigger] moves@[j]),
            k <= moves@.len(),
            forall|j: int|
                0 <= j < k ==> !(moves@[j] != to && cell(chessboard@, #[trigger] moves@[j])
                    is Some),
        decreases moves@.len() - k,
    {
        let move_position = moves[k];
        if !(move_position == to) {
            if chessboard.board[move_position.row * 8 + move_position.col].is_some() {
                proof {
                    assert(moves@[k as int] != to && cell(chessboard@, moves@[k as int]) is Some);
                }
                return true;
            }
        }
        k = k + 1;
    }
    false
}

/// Scans the board for a piece attacking the king of `player_color` and
/// returns the first attacker a row-major scan finds, or `None` when the
/// king is not in check.
pub fn is_check(chessboard: &Chessboard, player_color: ChessPieceColor) -> (r: Option<Square>)
    requires
        chessboard.wf(),
    ensures
        match r {
            Some(s) => is_first_attacker(chessboard@, player_color, s),
            None => !in_check(chessboard@, player_color),
        },
{
    let king_position = match player_color {
        ChessPieceColor::White => chessboard.player1.king_position,
        ChessPieceColor::Black => chessboard.player2.king_position,
    };
    let mut i: usize = 0;
    while i < 64
        invariant
            chessboard.wf(),
            king_position == king_square(chessboard@, player_color),
            i <= 64,
            forall|t: Square|
                in_board(t) && idx_of(t) < i ==> !attacks(chessboard@, t, player_color),
        decreases 64 - i,
    {
        let s = Square { row: i / 8, col: i % 8 };
        proof {
            assert(idx_of(s) == i);
        }
        match chessboard.board[i] {
            Some(from_piece) => {
                if !(from_piece.color == player_color) {
                    proof {
                        assert(in_board(from_piece.position) && idx_of(from_piece.position) == i);
                        lemma_idx_of_injective(from_piece.position, s);
                        lemma_route_in_board(
                            from_piece.piece,
                            from_piece.color,
                            from_piece.position,
                            king_position,
                        );
                    }
                    let moves = from_piece.capture_piece(king_position);
                    if moves.len() > 0 {
                        if !validate_piece_in_path(chessboard, &moves, king_position) {
                            proof {
                                assert(attacks(chessboard@, s, player_color));
                                assert(forall|t: Square| #[trigger]
                                    attacks(chessboard@, t, player_color) ==> idx_of(s) <= idx_of(
                                        t,
                                    ));
                            }
                            return Some(from_piece.position);
                        }
                    }
                }
            },
            None => {},
        }
        proof {
            assert forall|t: Square|
                in_board(t) && idx_of(t) < i + 1 implies !attacks(
                chessboard@,
                t,
                player_color,
            ) by {
                if idx_of(t) == i {
                    lemma_idx_of_injective(t, s);
                }
            }
        }
        i = i + 1;
    }
    proof {
        assert(!in_check(chessboard@, player_color)) by {
            if in_check(chessboard@, player_color) {
                let w = choose|s: Square| attacks(chessboard@, s, player_color);
                assert(in_board(w) && idx_of(w) < 64);
            }
        }
    }
    None
}

/// The back rank of a side: the rank its pieces start on.
pub open spec fn back_rank(color: ChessPieceColor) -> int {
    match color {
        ChessPieceColor::White => 7,
        ChessPieceColor::Black => 0,
    }
}

/// The corner the castling rook starts from, chosen by the side of the
/// king's destination.
pub open spec fn castle_rook_from(m: BoardModel, to: Square) -> Square {
    let king = king_square(m, m.turn);
    if to.col > king.col {
        Square { row: king.row, col: 7 }
    } else {
        Square { row: king.row, col: 0 }
    }
}

/// The square the castling rook lands on: immediately beside the king's new
/// position, on the side the rook came from.
pub open spec fn castle_rook_to(m: BoardModel, to: Square) -> Square {
    let king = king_square(m, m.turn);
    if to.col > king.col {
        Square { row: king.row, col: (to.col - 1) as usize }
    } else {
        Square { row: king.row, col: (to.col + 1) as usize }
    }
}

/// Every square strictly between two columns of one row is empty.
pub open spec fn between_empty(m: BoardModel, row: usize, lo: int, hi: int) -> bool {
    forall|c: int|
        lo < c < hi ==> #[trigger] cell(m, Square { row, col: c as usize }) is None
}

/// The castling preconditions, all required: the side's king stands unmoved
/// on its back rank, the destination lies two columns away on the same rank
/// and strictly between king and rook corner, an unmoved rook of the same
/// side stands on that corner, and every square between king and rook is
/// empty.
pub open spec fn castle_ok(m: BoardModel, to: Square) -> bool {
    let king = king_square(m, m.turn);
    &&& in_board(to)
    &&& to.row == king.row
    &&& king.row == back_rank(m.turn)
    &&& dist(king.col as int, to.col as int) == 2
    &&& if to.col > king.col {
        to.col < 7
    } else {
        to.col > 0
    }
    &&& cell(m, king) matches Some(k) && k.before_position is None
    &&& cell(m, castle_rook_from(m, to)) matches Some(r) && r.piece is Rook && r.color == m.turn
        && r.before_position is None
    &&& if to.col > king.col {
        between_empty(m, king.row, king.col as int, 7)
    } else {
        between_empty(m, king.row, 0, king.col as int)
    }
}

/// The state after a castling move: the king relocated two columns toward
/// the rook, the rook relocated beside it, and the turn flipped once overall.
pub open spec fn castle_result(m: BoardModel, to: Square) -> BoardModel {
    let king = king_square(m, m.turn);
    match (cell(m, king), cell(m, castle_rook_from(m, to))) {
        (Some(k), Some(r)) => {
            let m1 = model_after_move(m, k, to, ChessPieceType::Queen);
            let m2 = model_after_move(m1, r, castle_rook_to(m, to), ChessPieceType::Queen);
            BoardModel {
                grid: m2.grid,
                turn: other_color(m2.turn),
                white_king: m2.white_king,
                black_king: m2.black_king,
            }
        },
        _ => m,
    }
}

/// Validates a castling attempt and, on success, builds the resulting state.
/// Any failed precondition yields the single `CannotCastle` outcome.
fn castling_validate(chessboard: &Chessboard, to: Square) -> (r: Result<Chessboard, Message>)
    requires
        chessboard.wf(),
        in_board(to),
    ensures
        match r {
            Ok(b) => castle_ok(chessboard@, to) && b@ == castle_result(chessboard@, to) && b.wf()
                && b.player_turn == other_color(chessboard.player_turn) && b.player1.name
                == chessboard.player1.name && b.player2.name == chessboard.player2.name,
            Err(e) => e is CannotCastle && !castle_ok(chessboard@, to),
        },
{
    let ghost m = chessboard@;
    let king_position = match chessboard.player_turn {
        ChessPieceColor::White => chessboard.player1.king_position,
        ChessPieceColor::Black => chessboard.player2.king_position,
    };
    let expected_rank = match chessboard.player_turn {
        ChessPieceColor::White => 7,
        ChessPieceColor::Black => 0,
    };
    if to.row != king_position.row || king_position.row != expected_rank {
        return Err(Message::CannotCastle);
    }
    if coord_dist(king_position.col, to.col) != 2 {
        return Err(Message::CannotCastle);
    }
    let kingside = to.col > king_position.col;
    if kingside && to.col >= 7 {
        return Err(Message::CannotCastle);
    }
    if !kingside && to.col == 0 {
        return Err(Message::CannotCastle);
    }
    let king_piece = match chessboard.board[king_position.row * 8 + king_position.col] {
        Some(p) => p,
        None => {
            proof {
                assert(false);
            }
            return Err(Message::CannotCastle);
        },
    };
    if king_piece.before_position.is_some() {
        return Err(Message::CannotCastle);
    }
    let rook_position = Square {
        row: king_position.row,
        col: if kingside {
            7
        } else {
            0
        },
    };
    proof {
        assert(rook_position == castle_rook_from(m, to));
    }
    let rook_piece = match chessboard.board[rook_position.row * 8 + rook_position.col] {
        Some(p) => p,
        None => {
            return Err(Message::CannotCastle);
        },
    };
    if !(matches!(rook_piece.piece, ChessPieceType::Rook) && rook_piece.color
        == chessboard.player_turn && rook_piece.before_position.is_none()) {
        return Err(Message::CannotCastle);
    }
    let lo = if kingside {
        king_position.col
    } else {
        0
    };
    let hi = if kingside {
        7
    } else {
        king_position.col
    };
    let mut c = lo + 1;
    while c < hi
        invariant
            m == chessboard@,
            chessboard.wf(),
            in_board(to),
            king_position == king_square(m, m.turn),
            to.row == king_position.row && king_position.row == back_rank(m.turn),
            dist(king_position.col as int, to.col as int) == 2,
            kingside == (to.col > king_position.col),
            kingside ==> to.col < 7,
            !kingside ==> to.col > 0,
            lo == if kingside {
                king_position.col
            } else {
                0
            },
            hi == if kingside {
                7
            } else {
                king_position.col
            },
            lo < 8 && hi < 8 && king_position.row < 8,
            lo + 1 <= c <= hi,
            forall|j: int|
                lo < j < c ==> #[trigger] cell(
                    m,
                    Square { row: king_position.row, col: j as usize },
                ) is None,
        decreases hi - c,
    {
        if chessboard.board[king_position.row * 8 + c].is_some() {
            proof {
                assert(cell(m, Square { row: king_position.row, col: c as usize }) is Some);
                assert(!(if to.col > king_position.col {
                    between_empty(m, king_position.row, king_position.col as int, 7)
                } else {
                    between_empty(m, king_position.row, 0, king_position.col as int)
                }));
            }
            return Err(Message::CannotCastle);
        }
        c = c + 1;
    }
    proof {
        assert(kingside ==> between_empty(m, king_position.row, king_position.col as int, 7));
        assert(!kingside ==> between_empty(m, king_position.row, 0, king_position.col as int));
        assert(castle_ok(m, to));
        assert(cell(m, king_position) == Some(king_piece));
        assert(king_piece.position == king_position);
        assert(cell(m, to) is None) by {
            assert(cell(m, Square { row: king_position.row, col: (to.col as int) as usize })
                is None);
            assert(Square { row: king_position.row, col: (to.col as int) as usize } == to);
        }
        lemma_move_preserves_ok(m, king_piece, to, ChessPieceType::Queen);
    }
    let temp1 = new_chessboard_instance_after_move(
        chessboard,
        &king_piece,
        to,
        ChessPieceType::Queen,
    );
    let ghost m1 = temp1@;
    let rook_to = Square {
        row: king_position.row,
        col: if kingside {
            to.col - 1
        } else {
            to.col + 1
        },
    };
    proof {
        assert(rook_to == castle_rook_to(m, to));
        assert(idx_of(rook_position) != idx_of(to) && idx_of(rook_position) != idx_of(
            king_position,
        ) && idx_of(rook_to) != idx_of(to) && idx_of(rook_to) != idx_of(king_position)) by {
            assert(rook_position.col != to.col && rook_position.col != king_position.col
                && rook_to.col != to.col && rook_to.col != king_position.col);
            if idx_of(rook_position) == idx_of(to) {
                lemma_idx_of_injective(rook_position, to);
            }
            if idx_of(rook_position) == idx_of(king_position) {
                lemma_idx_of_injective(rook_position, king_position);
            }
            if idx_of(rook_to) == idx_of(to) {
                lemma_idx_of_injective(rook_to, to);
            }
            if idx_of(rook_to) == idx_of(king_position) {
                lemma_idx_of_injective(rook_to, king_position);
            }
        }
        assert(cell(m1, rook_position) == Some(rook_piece));
        assert(rook_piece.position == rook_position);
        assert(cell(m1, rook_to) is None) by {
            assert(cell(
                m,
                Square { row: king_position.row, col: (rook_to.col as int) as usize },
            ) is None);
            assert(Square { row: king_position.row, col: (rook_to.col as int) as usize }
                == rook_to);
            assert(cell(m1, rook_to) == cell(m, rook_to));
        }
        lemma_move_preserves_ok(m1, rook_piece, rook_to, ChessPieceType::Queen);
    }
    let mut temp2 = new_chessboard_instance_after_move(
        &temp1,
        &rook_piece,
        rook_to,
        ChessPieceType::Queen,
    );
    temp2.player_turn = match temp2.player_turn {
        ChessPieceColor::White => ChessPieceColor::Black,
        ChessPieceColor::Black => ChessPieceColor::White,
    };
    proof {
        assert(temp2@ == castle_result(m, to));
        assert(board_ok(temp2@));
    }
    Ok(temp2)
}

/// The outcome of the generic (non-castling) validation tail, given the
/// route the piece would take: the route must be non-empty and unobstructed,
/// and the resulting state must not leave the mover's own king in check.
pub open spec fn generic_outcome(
    m: BoardModel,
    p: ChessPiece,
    to: Square,
    promotion: ChessPieceType,
    route: Seq<Square>,
) -> Result<BoardModel, Message> {
    if route.len() == 0 {
        Err(Message::CannotMovePieceToPosition)
    } else if path_blocked(m, route, to) {
        Err(Message::PieceBlockingTheWay)
    } else {
        let m2 = model_after_move(m, p, to, promotion);
        if in_check(m2, m.turn) {
            Err(Message::CannotLeaveKingInCheck)
        } else {
            Ok(m2)
        }
    }
}

/// The outcome of validating a move of the piece in `from_position` toward
/// `to`, with `to_position` the current occupant of the destination. The
/// checks run in order and stop at the first failure: a piece must stand at
/// the origin, it must belong to the side to move, a king moving two columns
/// goes through the castling protocol, a capture may not target the mover's
/// own color nor a king, the route must be non-empty and unobstructed, and
/// the move may not leave the mover's own king in check.
pub open spec fn validate_outcome(
    m: BoardModel,
    from_position: Option<ChessPiece>,
    to_position: Option<ChessPiece>,
    to: Square,
    promotion: ChessPieceType,
) -> Result<BoardModel, Message> {
    match from_position {
        None => Err(Message::NoPieceInStartingPosition),
        Some(p) => {
            if p.color != m.turn {
                Err(Message::PieceNotYourColor)
            } else if p.piece is King && dist(p.position.col as int, to.col as int) == 2 {
                if castle_ok(m, to) {
                    Ok(castle_result(m, to))
                } else {
                    Err(Message::CannotCastle)
                }
            } else {
                match to_position {
                    Some(t) => {
                        if t.color == p.color {
                            Err(Message::CannotMoveToOccupiedSameColor)
                        } else if t.piece is King {
                            Err(Message::CannotCaptureKing)
                        } else {
                            generic_outcome(
                                m,
                                p,
                                to,
                                promotion,
                                piece_capture_route(p.piece, p.color, p.position, to),
                            )
                        }
                    },
                    None => generic_outcome(
                        m,
                        p,
                        to,
                        promotion,
                        piece_move_route(p.piece, p.color, p.position, to),
                    ),
                }
            }
        },
    }
}

/// A non-empty route never starts and ends on the same square.
pub proof fn lemma_route_nonempty_neq(
    kind: ChessPieceType,
    color: ChessPieceColor,
    from: Square,
    to: Square,
)
    ensures
        piece_move_route(kind, color, from, to).len() > 0 ==> to != from,
        piece_capture_route(kind, color, from, to).len() > 0 ==> to != from,
{
}

/// Validates a requested move and, on success, builds the resulting state.
/// `from_position` must be the board's occupant of the origin square and
/// `to_position` the occupant of `to`; the result is exactly
/// `validate_outcome` of the current model.
pub fn validate_move(
    chessboard: &Chessboard,
    from_position: &Option<ChessPiece>,
    to_position: &Option<ChessPiece>,
    to: Square,
    promotion: ChessPieceType,
) -> (r: Result<Chessboard, Message>)
    requires
        chessboard.wf(),
        in_board(to),
        !(promotion is King),
        !(promotion is Pawn),
        (*from_position) matches Some(p) ==> in_board(p.position) && cell(chessboard@, p.position)
            == Some(p),
        *to_position == cell(chessboard@, to),
    ensures
        ({
            let out = validate_outcome(chessboard@, *from_position, *to_position, to, promotion);
            match r {
                Ok(b) => out == Ok::<BoardModel, Message>(b@) && b.wf() && b.player1.name
                    == chessboard.player1.name && b.player2.name == chessboard.player2.name,
                Err(e) => out == Err::<BoardModel, Message>(e),
            }
        }),
{
    let ghost m = chessboard@;
    let from_piece = match from_position {
        Some(p) => *p,
        None => {
            return Err(Message::NoPieceInStartingPosition);
        },
    };
    if !(from_piece.color == chessboard.player_turn) {
        return Err(Message::PieceNotYourColor);
    }
    if matches!(from_piece.piece, ChessPieceType::King) && coord_dist(from_piece.position.col, to.col)
        == 2 {
        return castling_validate(chessboard, to);
    }
    proof {
        lemma_route_in_board(from_piece.piece, from_piece.color, from_piece.position, to);
        lemma_route_nonempty_neq(from_piece.piece, from_piece.color, from_piece.position, to);
    }
    let moves = match to_position {
        Some(to_piece) => {
            if to_piece.color == from_piece.color {
                return Err(Message::CannotMoveToOccupiedSameColor);
            }
            if matches!(to_piece.piece, ChessPieceType::King) {
                return Err(Message::CannotCaptureKing);
            }
            from_piece.capture_piece(to)
        },
        None => from_piece.move_piece(to),
    };
    if moves.len() == 0 {
        return Err(Message::CannotMovePieceToPosition);
    }
    if validate_piece_in_path(chessboard, &moves, to) {
        return Err(Message::PieceBlockingTheWay);
    }
    proof {
        lemma_move_preserves_ok(m, from_piece, to, promotion);
    }
    let temp_chessboard = new_chessboard_instance_after_move(
        chessboard,
        &from_piece,
        to,
        promotion,
    );
    if is_check(&temp_chessboard, chessboard.player_turn).is_some() {
        return Err(Message::CannotLeaveKingInCheck);
    }
    Ok(temp_chessboard)
}

/// The capture route of the piece on `attacker` toward the king of `color`.
pub open spec fn attack_route_of(m: BoardModel, color: ChessPieceColor, attacker: Square) -> Seq<
    Square,
> {
    match cell(m, attacker) {
        Some(a) => piece_capture_route(a.piece, a.color, a.position, king_square(m, color)),
        None => Seq::empty(),
    }
}

/// A king escape onto `s`: an adjacent square off the attack route, holding
/// neither a king nor a piece of the defender's own color, such that moving
/// the king there leaves no check against the defender.
pub open spec fn king_escape_at(
    m: BoardModel,
    color: ChessPieceColor,
    route: Seq<Square>,
    s: Square,
) -> bool {
    let king = king_square(m, color);
    match cell(m, king) {
        Some(kp) => {
            &&& king_reachable(king, s)
            &&& !route.contains(s)
            &&& match cell(m, s) {
                Some(q) => !(q.piece is King) && q.color != color,
                None => true,
            }
            &&& !in_check(model_after_move(m, kp, s, ChessPieceType::Queen), color)
        },
        None => false,
    }
}

pub open spec fn king_escape_exists(m: BoardModel, color: ChessPieceColor, route: Seq<Square>) -> bool {
    exists|s: Square| king_escape_at(m, color, route, s)
}

/// A capturing escape by the defender's piece on `s`: the piece is no king,
/// its capture route to the attacker is non-empty and unobstructed, and
/// capturing the attacker leaves no check against the defender.
pub open spec fn capture_escape_at(
    m: BoardModel,
    color: ChessPieceColor,
    attacker: Square,
    s: Square,
) -> bool {
    match cell(m, s) {
        Some(p) => {
            &&& in_board(s)
            &&& p.color == color
            &&& !(p.piece is King)
            &&& piece_capture_route(p.piece, p.color, p.position, attacker).len() > 0
            &&& !path_blocked(
                m,
                piece_capture_route(p.piece, p.color, p.position, attacker),
                attacker,
            )
            &&& !in_check(model_after_move(m, p, attacker, ChessPieceType::Queen), color)
        },
        None => false,
    }
}

/// Some defending piece can capture the attacker and leave its king safe.
/// An attacking king is never capturable, so it admits no such escape.
pub open spec fn capture_escape_exists(
    m: BoardModel,
    color: ChessPieceColor,
    attacker: Square,
) -> bool {
    &&& cell(m, attacker) matches Some(a) && !(a.piece is King)
    &&& exists|s: Square| capture_escape_at(m, color, attacker, s)
}

/// An interposing escape: the defender's piece on `s` can move onto the
/// empty route square `route[j]` without obstruction, leaving no check
/// against the defender.
pub open spec fn interpose_escape_at(
    m: BoardModel,
    color: ChessPieceColor,
    route: Seq<Square>,
    s: Square,
    j: int,
) -> bool {
    match cell(m, s) {
        Some(p) => {
            &&& 0 <= j < route.len()
            &&& cell(m, route[j]) is None
            &&& in_board(s)
            &&& p.color == color
            &&& !(p.piece is King)
            &&& piece_move_route(p.piece, p.color, p.position, route[j]).len() > 0
            &&& !path_blocked(
                m,
                piece_move_route(p.piece, p.color, p.position, route[j]),
                route[j],
            )
            &&& !in_check(model_after_move(m, p, route[j], ChessPieceType::Queen), color)
        },
        None => false,
    }
}

pub open spec fn interpose_escape_exists(
    m: BoardModel,
    color: ChessPieceColor,
    route: Seq<Square>,
) -> bool {
    exists|s: Square, j: int| interpose_escape_at(m, color, route, s, j)
}

/// Checkmate against `color` by the piece on `attacker`: no king escape, no
/// capture of the attacker, and no interposition yields a king-safe board.
/// Speculative escape boards promote a probing pawn to a queen.
pub open spec fn checkmate_of(m: BoardModel, color: ChessPieceColor, attacker: Square) -> bool {
    let route = attack_route_of(m, color, attacker);
    &&& !king_escape_exists(m, color, route)
    &&& !capture_escape_exists(m, color, attacker)
    &&& !interpose_escape_exists(m, color, route)
}

/// Whether a sequence of squares holds a given square.
fn contains_square(moves: &Vec<Square>, s: Square) -> (r: bool)
    ensures
        r == moves@.contains(s),
{
    let mut k: usize = 0;
    while k < moves.len()
        invariant
            k <= moves@.len(),
            forall|j: int| 0 <= j < k ==> moves@[j] != s,
        decreases moves@.len() - k,
    {
        if moves[k] == s {
            return true;
        }
        k = k + 1;
    }
    false
}

/// Whether the king of `player_color` has a safe adjacent square to step
/// onto, given the attacker's route toward it.
#[verifier::loop_isolation(false)]
#[verifier::rlimit(100)]
fn has_king_escape(
    chessboard: &Chessboard,
    player_color: ChessPieceColor,
    attacker_position: Square,
    attack_route: &Vec<Square>,
) -> (r: bool)
    requires
        chessboard.wf(),
        in_board(attacker_position),
        cell(chessboard@, attacker_position) is Some,
        attack_route@ == attack_route_of(chessboard@, player_color, attacker_position),
    ensures
        r == king_escape_exists(
            chessboard@,
            player_color,
            attack_route_of(chessboard@, player_color, attacker_position),
        ),
{
    let ghost m = chessboard@;
    let ghost route = attack_route_of(m, player_color, attacker_position);
    let king_position = match player_color {
        ChessPieceColor::White => chessboard.player1.king_position,
        ChessPieceColor::Black => chessboard.player2.king_position,
    };
    let king_piece = chessboard.board[king_position.row * 8 + king_position.col].unwrap();
    let king_moves = king_allowed_moves(king_position);
    let mut i: usize = 0;
    while i < king_moves.len()
        invariant
            forall|k: int|
                0 <= k < i ==> !king_escape_at(m, player_color, route, #[trigger] king_moves@[k]),
        decreases king_moves@.len() - i,
    {
        let move_position = king_moves[i];
        proof {
            assert(king_moves@.contains(king_moves@[i as int]));
            assert(king_reachable(king_position, move_position));
        }
        if !contains_square(attack_route, move_position) {
            let blocked = match chessboard.board[move_position.row * 8 + move_position.col] {
                Some(q) => matches!(q.piece, ChessPieceType::King) || q.color == player_color,
                None => false,
            };
            if !blocked {
                proof {
                    lemma_move_preserves_ok(m, king_piece, move_position, ChessPieceType::Queen);
                }
                let temp_chessboard = new_chessboard_instance_after_move(
                    chessboard,
                    &king_piece,
                    move_position,
                    ChessPieceType::Queen,
                );
                if is_check(&temp_chessboard, player_color).is_none() {
                    proof {
                        assert(king_escape_at(m, player_color, route, move_position));
                    }
                    return true;
                }
            }
        }
        proof {
            assert(!king_escape_at(m, player_color, route, king_moves@[i as int]));
        }
        i = i + 1;
    }
    proof {
        assert(!king_escape_exists(m, player_color, route)) by {
            if king_escape_exists(m, player_color, route) {
                let s = choose|s: Square| king_escape_at(m, player_color, route, s);
                assert(king_moves@.contains(s));
                let k = choose|k: int| 0 <= k < king_moves@.len() && king_moves@[k] == s;
                assert(!king_escape_at(m, player_color, route, king_moves@[k]));
            }
        }
    }
    false
}

/// Whether some defending piece can capture the attacker and leave its own
/// king safe.
#[verifier::loop_isolation(false)]
#[verifier::rlimit(50)]
fn has_capture_escape(
    chessboard: &Chessboard,
    player_color: ChessPieceColor,
    attacker_position: Square,
) -> (r: bool)
    requires
        chessboard.wf(),
        in_board(attacker_position),
        cell(chessboard@, attacker_position) is Some,
    ensures
        r == capture_escape_exists(chessboard@, player_color, attacker_position),
{
    let ghost m = chessboard@;
    let attacking_piece = chessboard.board[attacker_position.row * 8
        + attacker_position.col].unwrap();
    if matches!(attacking_piece.piece, ChessPieceType::King) {
        return false;
    }
    let mut i: usize = 0;
    while i < 64
        invariant
            i <= 64,
            forall|t: Square|
                in_board(t) && idx_of(t) < i ==> !capture_escape_at(
                    m,
                    player_color,
                    attacker_position,
                    t,
                ),
        decreases 64 - i,
    {
        let s = Square { row: i / 8, col: i % 8 };
        proof {
            assert(idx_of(s) == i);
        }
        match chessboard.board[i] {
            Some(from_piece) => {
                if from_piece.color == player_color && !matches!(
                    from_piece.piece,
                    ChessPieceType::King,
                ) {
                    proof {
                        assert(from_piece.position == s);
                        lemma_route_in_board(
                            from_piece.piece,
                            from_piece.color,
                            from_piece.position,
                            attacker_position,
                        );
                        lemma_route_nonempty_neq(
                            from_piece.piece,
                            from_piece.color,
                            from_piece.position,
                            attacker_position,
                        );
                    }
                    let moves = from_piece.capture_piece(attacker_position);
                    if moves.len() > 0 {
                        if !validate_piece_in_path(chessboard, &moves, attacker_position) {
                            proof {
                                lemma_move_preserves_ok(
                                    m,
                                    from_piece,
                                    attacker_position,
                                    ChessPieceType::Queen,
                                );
                            }
                            let temp_chessboard = new_chessboard_instance_after_move(
                                chessboard,
                                &from_piece,
                                attacker_position,
                                ChessPieceType::Queen,
                            );
                            if is_check(&temp_chessboard, player_color).is_none() {
                                proof {
                                    assert(capture_escape_at(
                                        m,
                                        player_color,
                                        attacker_position,
                                        s,
                                    ));
                                }
                                return true;
                            }
                        }
                    }
                }
            },
            None => {},
        }
        proof {
            assert forall|t: Square| in_board(t) && idx_of(t) < i + 1 implies !capture_escape_at(
                m,
                player_color,
                attacker_position,
                t,
            ) by {
                if idx_of(t) == i {
                    lemma_idx_of_injective(t, s);
                }
            }
        }
        i = i + 1;
    }
    proof {
        assert(!capture_escape_exists(m, player_color, attacker_position)) by {
            if capture_escape_exists(m, player_color, attacker_position) {
                let s = choose|s: Square| capture_escape_at(m, player_color, attacker_position, s);
                assert(in_board(s) && idx_of(s) < 64);
            }
        }
    }
    false
}

/// Whether some defending piece can interpose on an empty square of the
/// attacker's route and leave its own king safe.
#[verifier::loop_isolation(false)]
#[verifier::rlimit(50)]
fn has_interpose_escape(
    chessboard: &Chessboard,
    player_color: ChessPieceColor,
    attacker_position: Square,
    attack_route: &Vec<Square>,
) -> (r: bool)
    requires
        chessboard.wf(),
        in_board(attacker_position),
        cell(chessboard@, attacker_position) is Some,
        attack_route@ == attack_route_of(chessboard@, player_color, attacker_position),
        forall|k: int| 0 <= k < attack_route@.len() ==> in_board(#[trigger] attack_route@[k]),
    ensures
        r == interpose_escape_exists(
            chessboard@,
            player_color,
            attack_route_of(chessboard@, player_color, attacker_position),
        ),
{
    let ghost m = chessboard@;
    let ghost route = attack_route_of(m, player_color, attacker_position);
    let mut i: usize = 0;
    while i < 64
        invariant
            i <= 64,
            forall|t: Square, j: int|
                in_board(t) && idx_of(t) < i ==> !interpose_escape_at(
                    m,
                    player_color,
                    route,
                    t,
                    j,
                ),
        decreases 64 - i,
    {
        let s = Square { row: i / 8, col: i % 8 };
        proof {
            assert(idx_of(s) == i);
        }
        match chessboard.board[i] {
            Some(from_piece) => {
                if from_piece.color == player_color && !matches!(
                    from_piece.piece,
                    ChessPieceType::King,
                ) {
                    proof {
                        assert(from_piece.position == s);
                    }
                    let mut j: usize = 0;
                    while j < attack_route.len()
                        invariant
                            cell(m, s) == Some(from_piece),
                            forall|jj: int|
                                0 <= jj < j ==> !interpose_escape_at(m, player_color, route, s, jj),
                        decreases attack_route@.len() - j,
                    {
                        let target = attack_route[j];
                        if chessboard.board[target.row * 8 + target.col].is_none() {
                            proof {
                                lemma_route_in_board(
                                    from_piece.piece,
                                    from_piece.color,
                                    from_piece.position,
                                    target,
                                );
                                lemma_route_nonempty_neq(
                                    from_piece.piece,
                                    from_piece.color,
                                    from_piece.position,
                                    target,
                                );
                            }
                            let moves = from_piece.move_piece(target);
                            if moves.len() > 0 {
                                if !validate_piece_in_path(chessboard, &moves, target) {
                                    proof {
                                        lemma_move_preserves_ok(
                                            m,
                                            from_piece,
                                            target,
                                            ChessPieceType::Queen,
                                        );
                                    }
                                    let temp_chessboard = new_chessboard_instance_after_move(
                                        chessboard,
                                        &from_piece,
                                        target,
                                        ChessPieceType::Queen,
                                    );
                                    if is_check(&temp_chessboard, player_color).is_none() {
                                        proof {
                                            assert(interpose_escape_at(
                                                m,
                                                player_color,
                                                route,
                                                s,
                                                j as int,
                                            ));
                                        }
                                        return true;
                                    }
                                }
                            }
                        }
                        proof {
                            assert(!interpose_escape_at(m, player_color, route, s, j as int));
                        }
                        j = j + 1;
                    }
                    proof {
                        assert(forall|jj: int| !interpose_escape_at(m, player_color, route, s, jj));
                    }
                }
            },
            None => {},
        }
        proof {
            assert forall|t: Square, j: int|
                in_board(t) && idx_of(t) < i + 1 implies !interpose_escape_at(
                m,
                player_color,
                route,
                t,
                j,
            ) by {
                if idx_of(t) == i {
                    lemma_idx_of_injective(t, s);
                }
            }
        }
        i = i + 1;
    }
    proof {
        assert(!interpose_escape_exists(m, player_color, route)) by {
            if interpose_escape_exists(m, player_color, route) {
                let (s, j) = choose|s: Square, j: int|
                    interpose_escape_at(m, player_color, route, s, j);
                assert(in_board(s) && idx_of(s) < 64);
            }
        }
    }
    false
}

/// Decides checkmate against `player_color` by the piece standing on
/// `attacker_position`: returns false as soon as a king escape, a capture of
/// the attacker, or an interposition yields a king-safe board, and true only
/// when none does.
pub fn is_checkmate(
    chessboard: &Chessboard,
    player_color: ChessPieceColor,
    attacker_position: Square,
) -> (r: bool)
    requires
        chessboard.wf(),
        in_board(attacker_position),
        cell(chessboard@, attacker_position) is Some,
    ensures
        r == checkmate_of(chessboard@, player_color, attacker_position),
{
    let ghost m = chessboard@;
    let king_position = match player_color {
        ChessPieceColor::White => chessboard.player1.king_position,
        ChessPieceColor::Black => chessboard.player2.king_position,
    };
    let attacking_piece = chessboard.board[attacker_position.row * 8
        + attacker_position.col].unwrap();
    proof {
        assert(attacking_piece.position == attacker_position);
        lemma_route_in_board(
            attacking_piece.piece,
            attacking_piece.color,
            attacking_piece.position,
            king_position,
        );
    }
    let attack_route = attacking_piece.capture_piece(king_position);
    proof {
        assert(attack_route@ == attack_route_of(m, player_color, attacker_position));
    }
    if has_king_escape(chessboard, player_color, attacker_position, &attack_route) {
        return false;
    }
    if has_capture_escape(chessboard, player_color, attacker_position) {
        return false;
    }
    if has_interpose_escape(chessboard, player_color, attacker_position, &attack_route) {
        return false;
    }
    true
}

/// The complete validation of a move request on a state: out-of-range
/// coordinates fail closed, and in-range ones go through `validate_outcome`
/// with the occupants of the two squares.
pub open spec fn move_validation(
    m: BoardModel,
    from: Square,
    to: Square,
    promotion: ChessPieceType,
) -> Result<BoardModel, Message> {
    if !in_board(from) {
        Err(Message::NoPieceInStartingPosition)
    } else if !in_board(to) {
        Err(Message::CannotMovePieceToPosition)
    } else {
        validate_outcome(m, cell(m, from), cell(m, to), to, promotion)
    }
}

/// Turn alternation: every accepted move flips the side to move exactly
/// once. A successful castling also flips it exactly once overall, across
/// both piece relocations.
pub proof fn lemma_accepted_move_flips_turn(
    m: BoardModel,
    from: Square,
    to: Square,
    promotion: ChessPieceType,
)
    ensures
        move_validation(m, from, to, promotion) matches Ok(m2) ==> m2.turn == other_color(m.turn),
{
}

/// King safety: an accepted non-castling move never leaves the mover's own
/// king in check on the resulting board. A castling move is excluded: the
/// castling protocol runs no post-move check test.
pub proof fn lemma_accepted_move_king_safe(
    m: BoardModel,
    from: Square,
    to: Square,
    promotion: ChessPieceType,
)
    requires
        !(in_board(from) && (cell(m, from) matches Some(p) && p.piece is King && dist(
            p.position.col as int,
            to.col as int,
        ) == 2)),
    ensures
        move_validation(m, from, to, promotion) matches Ok(m2) ==> !in_check(m2, m.turn),
{
}

/// Promotion: an accepted pawn move onto the pawn's far rank leaves a piece
/// of the chosen promotion kind — by the callers' preconditions never a pawn
/// and never a king — standing on the destination square.
pub proof fn lemma_promotion_replaces_pawn(
    m: BoardModel,
    from: Square,
    to: Square,
    promotion: ChessPieceType,
)
    requires
        board_ok(m),
        cell(m, from) matches Some(p) && p.piece is Pawn && to.row == crate::utilities::promotion_rank(
            p.color,
        ),
    ensures
        move_validation(m, from, to, promotion) matches Ok(m2) ==> cell(m2, to) matches Some(q)
            && q.piece == promotion,
{
    if in_board(from) && in_board(to) {
        match cell(m, from) {
            Some(p) => {
                assert(p.position == from) by {
                    lemma_idx_of_injective(p.position, from);
                }
                lemma_route_nonempty_neq(p.piece, p.color, p.position, to);
                if move_validation(m, from, to, promotion) matches Ok(m2) {
                    assert(idx_of(to) != idx_of(from)) by {
                        if idx_of(to) == idx_of(from) {
                            lemma_idx_of_injective(to, from);
                        }
                    }
                }
            },
            None => {},
        }
    }
}


} // verus!
