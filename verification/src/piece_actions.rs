//! Per-kind dispatch from a piece to its route and move-set functions.

use vstd::prelude::*;

use crate::allowed_moves::{
    bishop_allowed_moves, king_allowed_moves, knight_allowed_moves, pawn_all_allowed_move,
    pawn_capture_set, pawn_forward_set, queen_allowed_moves, rook_allowed_moves,
};
use crate::piece_type::{in_board, ChessPiece, ChessPieceType, Square};
use crate::routes_moves::{
    bishop_reachable, bishop_route_moves, king_reachable, king_route_moves, knight_reachable,
    knight_route_moves, pawn_route_capture, pawn_route_move, piece_capture_route, piece_move_route,
    queen_route_moves, rook_reachable, rook_route_moves,
};

verus! {

/// Route computation for a piece: `move_piece` gives the route toward an
/// empty destination, `capture_piece` the route toward an occupied one.
pub trait PieceActions {
    /// The route this piece's move toward `new_position` traverses.
    spec fn move_route_spec(&self, new_position: Square) -> Seq<Square>;

    /// The route this piece's capture toward `new_position` traverses.
    spec fn capture_route_spec(&self, new_position: Square) -> Seq<Square>;

    fn move_piece(&self, new_position: Square) -> (r: Vec<Square>)
        ensures
            r@ == self.move_route_spec(new_position),
    ;

    fn capture_piece(&self, new_position: Square) -> (r: Vec<Square>)
        ensures
            r@ == self.capture_route_spec(new_position),
    ;
}

impl PieceActions for ChessPiece {
    open spec fn move_route_spec(&self, new_position: Square) -> Seq<Square> {
        piece_move_route(self.piece, self.color, self.position, new_position)
    }

    open spec fn capture_route_spec(&self, new_position: Square) -> Seq<Square> {
        piece_capture_route(self.piece, self.color, self.position, new_position)
    }

    fn move_piece(&self, new_position: Square) -> (r: Vec<Square>) {
        match self.piece {
            ChessPieceType::King => king_route_moves(self.position, new_position),
            ChessPieceType::Rook => rook_route_moves(self.position, new_position),
            ChessPieceType::Bishop => bishop_route_moves(self.position, new_position),
            ChessPieceType::Queen => queen_route_moves(self.position, new_position),
            ChessPieceType::Knight => knight_route_moves(self.position, new_position),
            ChessPieceType::Pawn => pawn_route_move(self.position, new_position, self.color),
        }
    }

    fn capture_piece(&self, new_position: Square) -> (r: Vec<Square>) {
        match self.piece {
            ChessPieceType::King => king_route_moves(self.position, new_position),
            ChessPieceType::Rook => rook_route_moves(self.position, new_position),
            ChessPieceType::Bishop => bishop_route_moves(self.position, new_position),
            ChessPieceType::Queen => queen_route_moves(self.position, new_position),
            ChessPieceType::Knight => knight_route_moves(self.position, new_position),
            ChessPieceType::Pawn => pawn_route_capture(self.position, new_position, self.color),
        }
    }
}

/// True when `s` belongs to the full geometric move set of `p`: every square
/// the piece's geometry can reach, for a move or for a capture.
pub open spec fn candidate_dest(p: ChessPiece, s: Square) -> bool {
    match p.piece {
        ChessPieceType::King => king_reachable(p.position, s),
        ChessPieceType::Rook => rook_reachable(p.position, s),
        ChessPieceType::Bishop => bishop_reachable(p.position, s),
        ChessPieceType::Queen => rook_reachable(p.position, s) || bishop_reachable(p.position, s),
        ChessPieceType::Knight => knight_reachable(p.position, s),
        ChessPieceType::Pawn => pawn_forward_set(p.position, p.color, s) || pawn_capture_set(
            p.position,
            p.color,
            s,
        ),
    }
}

impl ChessPiece {
    /// The full geometric move set of this piece, not yet legality-filtered;
    /// each destination appears exactly once.
    pub fn allowed_moves(&self) -> (r: Vec<Square>)
        requires
            in_board(self.position),
        ensures
            forall|s: Square| r@.contains(s) <==> candidate_dest(*self, s),
            r@.no_duplicates(),
    {
        match self.piece {
            ChessPieceType::King => king_allowed_moves(self.position),
            ChessPieceType::Rook => rook_allowed_moves(self.position),
            ChessPieceType::Bishop => bishop_allowed_moves(self.position),
            ChessPieceType::Queen => queen_allowed_moves(self.position),
            ChessPieceType::Knight => knight_allowed_moves(self.position),
            ChessPieceType::Pawn => pawn_all_allowed_move(self.position, self.color),
        }
    }
}

/// Any destination with a non-empty move or capture route belongs to the
/// piece's geometric move set, so enumerating that set covers every move the
/// validator could accept.
pub proof fn lemma_route_implies_candidate(p: ChessPiece, to: Square)
    requires
        in_board(p.position),
    ensures
        piece_move_route(p.piece, p.color, p.position, to).len() > 0 ==> candidate_dest(p, to),
        piece_capture_route(p.piece, p.color, p.position, to).len() > 0 ==> candidate_dest(p, to),
{
}

} // verus!
