//! Route geometry: for each piece kind, the ordered sequence of squares a
//! move from `current_position` to `new_position` traverses, independent of
//! board occupancy. The sequence is empty exactly when the destination is
//! off-board or not reachable by that kind's geometry; otherwise it lists
//! every square after the origin up to and including the destination, in
//! travel order.

use vstd::prelude::*;

use crate::piece_type::{dist, in_board, ChessPieceColor, ChessPieceType, Square};

verus! {

/// The coordinate reached after `j` steps from `a` toward `b`.
pub open spec fn toward(a: usize, b: usize, j: int) -> usize {
    if b > a {
        (a + j) as usize
    } else {
        (a - j) as usize
    }
}

/// A king move: one step in any direction, to a different on-board square.
pub open spec fn king_reachable(from: Square, to: Square) -> bool {
    &&& in_board(to)
    &&& to != from
    &&& dist(from.row as int, to.row as int) <= 1
    &&& dist(from.col as int, to.col as int) <= 1
}

pub open spec fn king_route(from: Square, to: Square) -> Seq<Square> {
    if king_reachable(from, to) {
        seq![to]
    } else {
        Seq::empty()
    }
}

/// A rook move: along exactly one rank or one file, to an on-board square.
pub open spec fn rook_reachable(from: Square, to: Square) -> bool {
    &&& in_board(to)
    &&& (from.row == to.row && from.col != to.col) || (from.col == to.col && from.row != to.row)
}

pub open spec fn rook_route(from: Square, to: Square) -> Seq<Square> {
    if !rook_reachable(from, to) {
        Seq::empty()
    } else if from.row == to.row {
        Seq::new(
            dist(from.col as int, to.col as int) as nat,
            |j: int| Square { row: from.row, col: toward(from.col, to.col, j + 1) },
        )
    } else {
        Seq::new(
            dist(from.row as int, to.row as int) as nat,
            |j: int| Square { row: toward(from.row, to.row, j + 1), col: from.col },
        )
    }
}

/// A bishop move: along a diagonal, to a different on-board square.
pub open spec fn bishop_reachable(from: Square, to: Square) -> bool {
    &&& in_board(to)
    &&& to != from
    &&& dist(from.row as int, to.row as int) == dist(from.col as int, to.col as int)
}

pub open spec fn bishop_route(from: Square, to: Square) -> Seq<Square> {
    if !bishop_reachable(from, to) {
        Seq::empty()
    } else {
        Seq::new(
            dist(from.row as int, to.row as int) as nat,
            |j: int| Square {
                row: toward(from.row, to.row, j + 1),
                col: toward(from.col, to.col, j + 1),
            },
        )
    }
}

/// A queen move: whichever of the rook and bishop routes is non-empty.
pub open spec fn queen_route(from: Square, to: Square) -> Seq<Square> {
    if rook_route(from, to).len() > 0 {
        rook_route(from, to)
    } else {
        bishop_route(from, to)
    }
}

/// A knight jump: an L-shaped offset to an on-board square.
pub open spec fn knight_reachable(from: Square, to: Square) -> bool {
    &&& in_board(to)
    &&& {
        let rd = dist(from.row as int, to.row as int);
        let cd = dist(from.col as int, to.col as int);
        (rd == 2 && cd == 1) || (rd == 1 && cd == 2)
    }
}

pub open spec fn knight_route(from: Square, to: Square) -> Seq<Square> {
    if knight_reachable(from, to) {
        seq![to]
    } else {
        Seq::empty()
    }
}

/// A non-capturing pawn move: one square straight ahead, or two squares from
/// the color's starting rank with the intermediate square on the route.
pub open spec fn pawn_move_route(from: Square, to: Square, color: ChessPieceColor) -> Seq<Square> {
    if !in_board(to) || from.col != to.col || from.row == to.row {
        Seq::empty()
    } else {
        match color {
            ChessPieceColor::Black => {
                if to.row == from.row + 1 {
                    seq![to]
                } else if from.row == 1 && to.row == 3 {
                    seq![Square { row: 2, col: to.col }, to]
                } else {
                    Seq::empty()
                }
            },
            ChessPieceColor::White => {
                if to.row + 1 == from.row {
                    seq![to]
                } else if from.row == 6 && to.row == 4 {
                    seq![Square { row: 5, col: to.col }, to]
                } else {
                    Seq::empty()
                }
            },
        }
    }
}

/// A pawn capture: exactly one square diagonally forward.
pub open spec fn pawn_capture_route(from: Square, to: Square, color: ChessPieceColor) -> Seq<
    Square,
> {
    if !in_board(to) {
        Seq::empty()
    } else {
        match color {
            ChessPieceColor::Black => {
                if to.row == from.row + 1 && (to.col + 1 == from.col || to.col == from.col + 1) {
                    seq![to]
                } else {
                    Seq::empty()
                }
            },
            ChessPieceColor::White => {
                if to.row + 1 == from.row && (to.col + 1 == from.col || to.col == from.col + 1) {
                    seq![to]
                } else {
                    Seq::empty()
                }
            },
        }
    }
}

/// The route a piece of the given kind traverses to move to an empty square.
pub open spec fn piece_move_route(
    kind: ChessPieceType,
    color: ChessPieceColor,
    from: Square,
    to: Square,
) -> Seq<Square> {
    match kind {
        ChessPieceType::King => king_route(from, to),
        ChessPieceType::Rook => rook_route(from, to),
        ChessPieceType::Bishop => bishop_route(from, to),
        ChessPieceType::Queen => queen_route(from, to),
        ChessPieceType::Knight => knight_route(from, to),
        ChessPieceType::Pawn => pawn_move_route(from, to, color),
    }
}

/// The route a piece of the given kind traverses to capture on a square.
/// Only the pawn's capture route differs from its move route.
pub open spec fn piece_capture_route(
    kind: ChessPieceType,
    color: ChessPieceColor,
    from: Square,
    to: Square,
) -> Seq<Square> {
    match kind {
        ChessPieceType::King => king_route(from, to),
        ChessPieceType::Rook => rook_route(from, to),
        ChessPieceType::Bishop => bishop_route(from, to),
        ChessPieceType::Queen => queen_route(from, to),
        ChessPieceType::Knight => knight_route(from, to),
        ChessPieceType::Pawn => pawn_capture_route(from, to, color),
    }
}

/// Absolute difference of two board coordinates.
pub(crate) fn coord_dist(a: usize, b: usize) -> (r: usize)
    ensures
        r == dist(a as int, b as int),
{
    if a >= b {
        a - b
    } else {
        b - a
    }
}

/// Route of a king move toward `new_position`.
pub fn king_route_moves(current_position: Square, new_position: Square) -> (r: Vec<Square>)
    ensures
        r@ == king_route(current_position, new_position),
{
    let mut route_moves: Vec<Square> = Vec::new();
    if new_position.row >= 8 || new_position.col >= 8 {
        return route_moves;
    }
    if coord_dist(current_position.row, new_position.row) <= 1 && coord_dist(
        current_position.col,
        new_position.col,
    ) <= 1 && !(current_position == new_position) {
        route_moves.push(new_position);
    }
    proof {
        assert(route_moves@ =~= king_route(current_position, new_position));
    }
    route_moves
}

/// Route of a rook move toward `new_position`, in travel order.
pub fn rook_route_moves(current_position: Square, new_position: Square) -> (r: Vec<Square>)
    ensures
        r@ == rook_route(current_position, new_position),
{
    let mut route_moves: Vec<Square> = Vec::new();
    if new_position.row >= 8 || new_position.col >= 8 {
        return route_moves;
    }
    if current_position.row == new_position.row && current_position.col != new_position.col {
        let n = coord_dist(current_position.col, new_position.col);
        let mut j: usize = 0;
        while j < n
            invariant
                current_position.row == new_position.row,
                current_position.col != new_position.col,
                in_board(new_position),
                n == dist(current_position.col as int, new_position.col as int),
                j <= n,
                route_moves@.len() == j,
                forall|k: int|
                    0 <= k < j ==> route_moves@[k] == rook_route(
                        current_position,
                        new_position,
                    )[k],
            decreases n - j,
        {
            let c = if new_position.col > current_position.col {
                current_position.col + (j + 1)
            } else {
                current_position.col - (j + 1)
            };
            route_moves.push(Square { row: current_position.row, col: c });
            j = j + 1;
        }
    } else if current_position.col == new_position.col && current_position.row != new_position.row {
        let n = coord_dist(current_position.row, new_position.row);
        let mut j: usize = 0;
        while j < n
            invariant
                current_position.col == new_position.col,
                current_position.row != new_position.row,
                in_board(new_position),
                n == dist(current_position.row as int, new_position.row as int),
                j <= n,
                route_moves@.len() == j,
                forall|k: int|
                    0 <= k < j ==> route_moves@[k] == rook_route(
                        current_position,
                        new_position,
                    )[k],
            decreases n - j,
        {
            let x = if new_position.row > current_position.row {
                current_position.row + (j + 1)
            } else {
                current_position.row - (j + 1)
            };
            route_moves.push(Square { row: x, col: current_position.col });
            j = j + 1;
        }
    }
    proof {
        assert(route_moves@ =~= rook_route(current_position, new_position));
    }
    route_moves
}

/// Route of a bishop move toward `new_position`, in travel order.
pub fn bishop_route_moves(current_position: Square, new_position: Square) -> (r: Vec<Square>)
    ensures
        r@ == bishop_route(current_position, new_position),
{
    let mut route_moves: Vec<Square> = Vec::new();
    if new_position.row >= 8 || new_position.col >= 8 {
        return route_moves;
    }
    if !(current_position == new_position) && coord_dist(current_position.row, new_position.row)
        == coord_dist(current_position.col, new_position.col) {
        let n = coord_dist(current_position.row, new_position.row);
        let mut j: usize = 0;
        while j < n
            invariant
                !(current_position == new_position),
                in_board(new_position),
                dist(current_position.row as int, new_position.row as int) == dist(
                    current_position.col as int,
                    new_position.col as int,
                ),
                n == dist(current_position.row as int, new_position.row as int),
                j <= n,
                route_moves@.len() == j,
                forall|k: int|
                    0 <= k < j ==> route_moves@[k] == bishop_route(
                        current_position,
                        new_position,
                    )[k],
            decreases n - j,
        {
            let x = if new_position.row > current_position.row {
                current_position.row + (j + 1)
            } else {
                current_position.row - (j + 1)
            };
            let c = if new_position.col > current_position.col {
                current_position.col + (j + 1)
            } else {
                current_position.col - (j + 1)
            };
            route_moves.push(Square { row: x, col: c });
            j = j + 1;
        }
    }
    proof {
        assert(route_moves@ =~= bishop_route(current_position, new_position));
    }
    route_moves
}

/// Route of a queen move: the rook route when it is non-empty, otherwise the
/// bishop route.
pub fn queen_route_moves(current_position: Square, new_position: Square) -> (r: Vec<Square>)
    ensures
        r@ == queen_route(current_position, new_position),
{
    let rook = rook_route_moves(current_position, new_position);
    if rook.len() > 0 {
        return rook;
    }
    bishop_route_moves(current_position, new_position)
}

/// Route of a knight jump toward `new_position`.
pub fn knight_route_moves(current_position: Square, new_position: Square) -> (r: Vec<Square>)
    ensures
        r@ == knight_route(current_position, new_position),
{
    let mut route_moves: Vec<Square> = Vec::new();
    if new_position.row >= 8 || new_position.col >= 8 {
        return route_moves;
    }
    let rd = coord_dist(current_position.row, new_position.row);
    let cd = coord_dist(current_position.col, new_position.col);
    if (rd == 2 && cd == 1) || (rd == 1 && cd == 2) {
        route_moves.push(new_position);
    }
    proof {
        assert(route_moves@ =~= knight_route(current_position, new_position));
    }
    route_moves
}

/// Route of a non-capturing pawn move toward `new_position`.
pub fn pawn_route_move(
    current_position: Square,
    new_position: Square,
    color: ChessPieceColor,
) -> (r: Vec<Square>)
    ensures
        r@ == pawn_move_route(current_position, new_position, color),
{
    let mut route_moves: Vec<Square> = Vec::new();
    if new_position.row >= 8 || new_position.col >= 8 {
        return route_moves;
    }
    if current_position.col != new_position.col || current_position.row == new_position.row {
        return route_moves;
    }
    match color {
        ChessPieceColor::Black => {
            if new_position.row > current_position.row && new_position.row - current_position.row
                == 1 {
                route_moves.push(new_position);
            } else if current_position.row == 1 && new_position.row == 3 {
                route_moves.push(Square { row: 2, col: new_position.col });
                route_moves.push(new_position);
            }
        },
        ChessPieceColor::White => {
            if new_position.row + 1 == current_position.row {
                route_moves.push(new_position);
            } else if current_position.row == 6 && new_position.row == 4 {
                route_moves.push(Square { row: 5, col: new_position.col });
                route_moves.push(new_position);
            }
        },
    }
    proof {
        assert(route_moves@ =~= pawn_move_route(current_position, new_position, color));
    }
    route_moves
}

/// Route of a pawn capture toward `new_position`.
pub fn pawn_route_capture(
    current_position: Square,
    new_position: Square,
    color: ChessPieceColor,
) -> (r: Vec<Square>)
    ensures
        r@ == pawn_capture_route(current_position, new_position, color),
{
    let mut route_moves: Vec<Square> = Vec::new();
    if new_position.row >= 8 || new_position.col >= 8 {
        return route_moves;
    }
    let diagonal = new_position.col + 1 == current_position.col || (new_position.col
        > current_position.col && new_position.col - current_position.col == 1);
    match color {
        ChessPieceColor::Black => {
            if new_position.row > current_position.row && new_position.row - current_position.row
                == 1 && diagonal {
                route_moves.push(new_position);
            }
        },
        ChessPieceColor::White => {
            if new_position.row + 1 == current_position.row && diagonal {
                route_moves.push(new_position);
            }
        },
    }
    proof {
        assert(route_moves@ =~= pawn_capture_route(current_position, new_position, color));
    }
    route_moves
}

/// Routes never leave the board: starting from an on-board square, every
/// square of a move or capture route is on the board, and a route to an
/// off-board destination is empty.
pub proof fn lemma_route_in_board(
    kind: ChessPieceType,
    color: ChessPieceColor,
    from: Square,
    to: Square,
)
    requires
        in_board(from),
    ensures
        forall|k: int|
            0 <= k < piece_move_route(kind, color, from, to).len() ==> in_board(
                #[trigger] piece_move_route(kind, color, from, to)[k],
            ),
        forall|k: int|
            0 <= k < piece_capture_route(kind, color, from, to).len() ==> in_board(
                #[trigger] piece_capture_route(kind, color, from, to)[k],
            ),
        !in_board(to) ==> piece_move_route(kind, color, from, to).len() == 0,
        !in_board(to) ==> piece_capture_route(kind, color, from, to).len() == 0,
{
}

} // verus!
