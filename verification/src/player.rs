//! A player: a display name and the cached square of that side's king.

use vstd::prelude::*;

use crate::piece_type::Square;

verus! {

/// One side of the game. `king_position` is a denormalized copy of the
/// position of this player's king, kept in sync by every mutation that moves
/// a king, so that check detection needs no full-board scan.
pub struct Player {
    pub name: String,
    pub king_position: Square,
}

} // verus!
