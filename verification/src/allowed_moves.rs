//! Geometric move-set enumeration: for each piece kind, every destination
//! square its geometry can reach from a given origin, ignoring board
//! occupancy — each destination exactly once. The search engine enumerates
//! these candidates and filters them through the legality validator.

use vstd::prelude::*;

use crate::piece_type::{dist, in_board, ChessPieceColor, Square};
use crate::routes_moves::{bishop_reachable, king_reachable, knight_reachable, rook_reachable};

verus! {

broadcast use
    vstd::seq_lib::lemma_seq_contains_after_push,
    vstd::seq_lib::lemma_seq_concat_contains_all_elements,
    vstd::seq_lib::lemma_seq_empty_contains_nothing;

/// The squares reached by shifting `p` by the given offset: one square when
/// it lies on the board, none otherwise.
pub open spec fn shifted_square(p: Square, dr: int, dc: int) -> Seq<Square> {
    if 0 <= p.row + dr < 8 && 0 <= p.col + dc < 8 {
        seq![Square { row: (p.row + dr) as usize, col: (p.col + dc) as usize }]
    } else {
        Seq::empty()
    }
}

/// The king's move set from `p`: its on-board neighbors in row-major order.
#[verifier::opaque]
pub open spec fn king_scan(p: Square) -> Seq<Square> {
    shifted_square(p, -1, -1) + shifted_square(p, -1, 0) + shifted_square(p, -1, 1)
        + shifted_square(p, 0, -1) + shifted_square(p, 0, 1) + shifted_square(p, 1, -1)
        + shifted_square(p, 1, 0) + shifted_square(p, 1, 1)
}

/// The king scan lists exactly the on-board neighbors of `p`, each once:
/// between three (in a corner) and eight (away from the edges).
pub proof fn lemma_king_scan_props(p: Square)
    requires
        in_board(p),
    ensures
        forall|s: Square| king_scan(p).contains(s) <==> king_reachable(p, s),
        king_scan(p).no_duplicates(),
        3 <= king_scan(p).len() <= 8,
{
    reveal(king_scan);
    let sc = king_scan(p);
    assert forall|s: Square| sc.contains(s) <==> king_reachable(p, s) by {
        if king_reachable(p, s) {
            let dr = s.row - p.row;
            let dc = s.col - p.col;
            assert(shifted_square(p, dr, dc).contains(s)) by {
                assert(shifted_square(p, dr, dc)[0] == s);
            }
        }
    }
    assert(sc.no_duplicates()) by {
        lemma_king_scan_no_dup(p);
    }
}

/// Distinct king steps from one square land on distinct squares, so the
/// king scan repeats none.
proof fn lemma_king_scan_no_dup(p: Square)
    requires
        in_board(p),
    ensures
        king_scan(p).no_duplicates(),
{
    reveal(king_scan);
    let a1 = shifted_square(p, -1, -1);
    let a2 = shifted_square(p, -1, 0);
    let a3 = shifted_square(p, -1, 1);
    let a4 = shifted_square(p, 0, -1);
    let a5 = shifted_square(p, 0, 1);
    let a6 = shifted_square(p, 1, -1);
    let a7 = shifted_square(p, 1, 0);
    let a8 = shifted_square(p, 1, 1);
    let c2 = a1 + a2;
    let c3 = c2 + a3;
    let c4 = c3 + a4;
    let c5 = c4 + a5;
    let c6 = c5 + a6;
    let c7 = c6 + a7;
    assert forall|i: int, j: int| 0 <= i < c2.len() && 0 <= j < a3.len() implies c2[i] != a3[j] by {
        assert(c2.contains(c2[i]));
    }
    vstd::seq_lib::lemma_no_dup_in_concat(c2, a3);
    assert forall|i: int, j: int| 0 <= i < c3.len() && 0 <= j < a4.len() implies c3[i] != a4[j] by {
        assert(c3.contains(c3[i]));
    }
    vstd::seq_lib::lemma_no_dup_in_concat(c3, a4);
    assert forall|i: int, j: int| 0 <= i < c4.len() && 0 <= j < a5.len() implies c4[i] != a5[j] by {
        assert(c4.contains(c4[i]));
    }
    vstd::seq_lib::lemma_no_dup_in_concat(c4, a5);
    assert forall|i: int, j: int| 0 <= i < c5.len() && 0 <= j < a6.len() implies c5[i] != a6[j] by {
        assert(c5.contains(c5[i]));
    }
    vstd::seq_lib::lemma_no_dup_in_concat(c5, a6);
    assert forall|i: int, j: int| 0 <= i < c6.len() && 0 <= j < a7.len() implies c6[i] != a7[j] by {
        assert(c6.contains(c6[i]));
    }
    vstd::seq_lib::lemma_no_dup_in_concat(c6, a7);
    assert forall|i: int, j: int| 0 <= i < c7.len() && 0 <= j < a8.len() implies c7[i] != a8[j] by {
        assert(c7.contains(c7[i]));
    }
    vstd::seq_lib::lemma_no_dup_in_concat(c7, a8);
}

/// The knight's move set from `p`: the on-board destinations of the offset
/// table (2,1), (2,-1), (-2,1), (-2,-1), (1,2), (1,-2), (-1,2), (-1,-2), in
/// that order.
#[verifier::opaque]
pub open spec fn knight_scan(p: Square) -> Seq<Square> {
    shifted_square(p, 2, 1) + shifted_square(p, 2, -1) + shifted_square(p, -2, 1)
        + shifted_square(p, -2, -1) + shifted_square(p, 1, 2) + shifted_square(p, 1, -2)
        + shifted_square(p, -1, 2) + shifted_square(p, -1, -2)
}

/// The knight scan lists exactly the squares a knight jump from `p` can
/// reach, each once.
pub proof fn lemma_knight_scan_props(p: Square)
    requires
        in_board(p),
    ensures
        forall|s: Square| knight_scan(p).contains(s) <==> knight_reachable(p, s),
        knight_scan(p).no_duplicates(),
{
    reveal(knight_scan);
    let sc = knight_scan(p);
    assert forall|s: Square| sc.contains(s) <==> knight_reachable(p, s) by {
        if knight_reachable(p, s) {
            let dr = s.row - p.row;
            let dc = s.col - p.col;
            assert(shifted_square(p, dr, dc).contains(s)) by {
                assert(shifted_square(p, dr, dc)[0] == s);
            }
        }
    }
    assert(sc.no_duplicates()) by {
        lemma_knight_scan_no_dup(p);
    }
}

/// Distinct knight offsets from one square land on distinct squares, so the
/// knight scan repeats none.
proof fn lemma_knight_scan_no_dup(p: Square)
    requires
        in_board(p),
    ensures
        knight_scan(p).no_duplicates(),
{
    reveal(knight_scan);
    let a1 = shifted_square(p, 2, 1);
    let a2 = shifted_square(p, 2, -1);
    let a3 = shifted_square(p, -2, 1);
    let a4 = shifted_square(p, -2, -1);
    let a5 = shifted_square(p, 1, 2);
    let a6 = shifted_square(p, 1, -2);
    let a7 = shifted_square(p, -1, 2);
    let a8 = shifted_square(p, -1, -2);
    let c2 = a1 + a2;
    let c3 = c2 + a3;
    let c4 = c3 + a4;
    let c5 = c4 + a5;
    let c6 = c5 + a6;
    let c7 = c6 + a7;
    assert forall|i: int, j: int| 0 <= i < c2.len() && 0 <= j < a3.len() implies c2[i] != a3[j] by {
        assert(c2.contains(c2[i]));
    }
    vstd::seq_lib::lemma_no_dup_in_concat(c2, a3);
    assert forall|i: int, j: int| 0 <= i < c3.len() && 0 <= j < a4.len() implies c3[i] != a4[j] by {
        assert(c3.contains(c3[i]));
    }
    vstd::seq_lib::lemma_no_dup_in_concat(c3, a4);
    assert forall|i: int, j: int| 0 <= i < c4.len() && 0 <= j < a5.len() implies c4[i] != a5[j] by {
        assert(c4.contains(c4[i]));
    }
    vstd::seq_lib::lemma_no_dup_in_concat(c4, a5);
    assert forall|i: int, j: int| 0 <= i < c5.len() && 0 <= j < a6.len() implies c5[i] != a6[j] by {
        assert(c5.contains(c5[i]));
    }
    vstd::seq_lib::lemma_no_dup_in_concat(c5, a6);
    assert forall|i: int, j: int| 0 <= i < c6.len() && 0 <= j < a7.len() implies c6[i] != a7[j] by {
        assert(c6.contains(c6[i]));
    }
    vstd::seq_lib::lemma_no_dup_in_concat(c6, a7);
    assert forall|i: int, j: int| 0 <= i < c7.len() && 0 <= j < a8.len() implies c7[i] != a8[j] by {
        assert(c7.contains(c7[i]));
    }
    vstd::seq_lib::lemma_no_dup_in_concat(c7, a8);
}

/// The coordinates 0 through 7 with `skip` left out, at position `k`.
pub open spec fn coord_skipping(skip: usize, k: int) -> usize {
    if k < skip {
        k as usize
    } else {
        (k + 1) as usize
    }
}

/// The rook's move set from `p`: the seven other squares of `p`'s file from
/// top to bottom, then the seven other squares of `p`'s rank from left to
/// right.
pub open spec fn rook_scan(p: Square) -> Seq<Square> {
    Seq::new(7, |k: int| Square { row: coord_skipping(p.row, k), col: p.col }) + Seq::new(
        7,
        |k: int| Square { row: p.row, col: coord_skipping(p.col, k) },
    )
}

/// The rook scan lists exactly the squares a rook move from `p` can reach,
/// each once: fourteen squares in all.
pub proof fn lemma_rook_scan_props(p: Square)
    requires
        in_board(p),
    ensures
        rook_scan(p).len() == 14,
        forall|s: Square| rook_scan(p).contains(s) <==> rook_reachable(p, s),
        rook_scan(p).no_duplicates(),
{
    let sc = rook_scan(p);
    assert forall|s: Square| sc.contains(s) <==> rook_reachable(p, s) by {
        if sc.contains(s) {
            let k = choose|k: int| 0 <= k < sc.len() && sc[k] == s;
            if k < 7 {
                assert(s == (Square { row: coord_skipping(p.row, k), col: p.col }));
            } else {
                assert(s == (Square { row: p.row, col: coord_skipping(p.col, k - 7) }));
            }
        }
        if rook_reachable(p, s) {
            if s.col == p.col && s.row != p.row {
                let k: int = if s.row < p.row {
                    s.row as int
                } else {
                    s.row - 1
                };
                assert(sc[k] == s);
            } else {
                let k: int = if s.col < p.col {
                    7 + s.col
                } else {
                    7 + s.col - 1
                };
                assert(sc[k] == s);
            }
        }
    }
    assert forall|i: int, j: int| 0 <= i < j < sc.len() implies sc[i] != sc[j] by {
        if j < 7 {
            assert(coord_skipping(p.row, i) != coord_skipping(p.row, j));
        } else if i >= 7 {
            assert(coord_skipping(p.col, i - 7) != coord_skipping(p.col, j - 7));
        } else {
            assert(sc[i].row != p.row && sc[j].row == p.row);
        }
    }
}

/// The number of on-board steps a diagonal ray from `p` can take in the
/// direction whose coordinate signs are `dr` and `dc`.
pub open spec fn ray_len(p: Square, dr: int, dc: int) -> int {
    let row_steps: int = if dr > 0 {
        7 - p.row
    } else {
        p.row as int
    };
    let col_steps: int = if dc > 0 {
        7 - p.col
    } else {
        p.col as int
    };
    if row_steps <= col_steps {
        row_steps
    } else {
        col_steps
    }
}

/// The squares of one diagonal ray from `p`, nearest first.
pub open spec fn diagonal_ray(p: Square, dr: int, dc: int) -> Seq<Square> {
    Seq::new(
        ray_len(p, dr, dc) as nat,
        |k: int| Square {
            row: (p.row + dr * (k + 1)) as usize,
            col: (p.col + dc * (k + 1)) as usize,
        },
    )
}

/// The bishop's move set from `p`: the four diagonal rays walked outward —
/// up-left, down-right, up-right, then down-left.
#[verifier::opaque]
pub open spec fn bishop_scan(p: Square) -> Seq<Square> {
    diagonal_ray(p, -1, -1) + diagonal_ray(p, 1, 1) + diagonal_ray(p, -1, 1) + diagonal_ray(
        p,
        1,
        -1,
    )
}

/// Each ray element lies on the board, `k + 1` diagonal steps from `p` in
/// the ray's direction.
proof fn lemma_ray_elems(p: Square, dr: int, dc: int)
    requires
        in_board(p),
        dr == 1 || dr == -1,
        dc == 1 || dc == -1,
    ensures
        forall|k: int|
            0 <= k < diagonal_ray(p, dr, dc).len() ==> {
                let s = #[trigger] diagonal_ray(p, dr, dc)[k];
                in_board(s) && s.row - p.row == dr * (k + 1) && s.col - p.col == dc * (k + 1)
            },
{
}

/// The bishop scan lists exactly the squares a bishop move from `p` can
/// reach, each once.
pub proof fn lemma_bishop_scan_props(p: Square)
    requires
        in_board(p),
    ensures
        forall|s: Square| bishop_scan(p).contains(s) <==> bishop_reachable(p, s),
        bishop_scan(p).no_duplicates(),
{
    reveal(bishop_scan);
    let a = diagonal_ray(p, -1, -1);
    let b = diagonal_ray(p, 1, 1);
    let c = diagonal_ray(p, -1, 1);
    let d = diagonal_ray(p, 1, -1);
    lemma_ray_elems(p, -1, -1);
    lemma_ray_elems(p, 1, 1);
    lemma_ray_elems(p, -1, 1);
    lemma_ray_elems(p, 1, -1);
    let sc = bishop_scan(p);
    assert forall|s: Square| sc.contains(s) <==> bishop_reachable(p, s) by {
        if sc.contains(s) {
            if a.contains(s) {
                let k = choose|k: int| 0 <= k < a.len() && a[k] == s;
                assert(in_board(a[k]));
            } else if b.contains(s) {
                let k = choose|k: int| 0 <= k < b.len() && b[k] == s;
                assert(in_board(b[k]));
            } else if c.contains(s) {
                let k = choose|k: int| 0 <= k < c.len() && c[k] == s;
                assert(in_board(c[k]));
            } else {
                assert(d.contains(s));
                let k = choose|k: int| 0 <= k < d.len() && d[k] == s;
                assert(in_board(d[k]));
            }
        }
        if bishop_reachable(p, s) {
            let steps = dist(p.row as int, s.row as int);
            if s.row < p.row && s.col < p.col {
                assert(a[steps - 1] == s);
                assert(a.contains(s));
            } else if s.row > p.row && s.col > p.col {
                assert(b[steps - 1] == s);
                assert(b.contains(s));
            } else if s.row < p.row && s.col > p.col {
                assert(c[steps - 1] == s);
                assert(c.contains(s));
            } else {
                assert(s.row > p.row && s.col < p.col);
                assert(d[steps - 1] == s);
                assert(d.contains(s));
            }
        }
    }
    assert(a.no_duplicates() && b.no_duplicates() && c.no_duplicates() && d.no_duplicates()) by {
        assert forall|i: int, j: int|
            0 <= i < a.len() && 0 <= j < a.len() && i != j implies a[i] != a[j] by {
            assert(a[i].row - p.row == -1 * (i + 1) && a[j].row - p.row == -1 * (j + 1));
        }
        assert forall|i: int, j: int|
            0 <= i < b.len() && 0 <= j < b.len() && i != j implies b[i] != b[j] by {
            assert(b[i].row - p.row == 1 * (i + 1) && b[j].row - p.row == 1 * (j + 1));
        }
        assert forall|i: int, j: int|
            0 <= i < c.len() && 0 <= j < c.len() && i != j implies c[i] != c[j] by {
            assert(c[i].row - p.row == -1 * (i + 1) && c[j].row - p.row == -1 * (j + 1));
        }
        assert forall|i: int, j: int|
            0 <= i < d.len() && 0 <= j < d.len() && i != j implies d[i] != d[j] by {
            assert(d[i].row - p.row == 1 * (i + 1) && d[j].row - p.row == 1 * (j + 1));
        }
    }
    assert forall|i: int, j: int| 0 <= i < a.len() && 0 <= j < b.len() implies a[i] != b[j] by {
        assert(a[i].row < p.row && b[j].row > p.row);
    }
    vstd::seq_lib::lemma_no_dup_in_concat(a, b);
    assert forall|i: int, j: int|
        0 <= i < (a + b).len() && 0 <= j < c.len() implies (a + b)[i] != c[j] by {
        let x = (a + b)[i];
        assert((a + b).contains(x));
        if a.contains(x) {
            let k = choose|k: int| 0 <= k < a.len() && a[k] == x;
            assert(x.col < p.col && c[j].col > p.col);
        } else {
            assert(b.contains(x));
            let k = choose|k: int| 0 <= k < b.len() && b[k] == x;
            assert(x.row > p.row && c[j].row < p.row);
        }
    }
    vstd::seq_lib::lemma_no_dup_in_concat(a + b, c);
    assert forall|i: int, j: int|
        0 <= i < (a + b + c).len() && 0 <= j < d.len() implies (a + b + c)[i] != d[j] by {
        let x = (a + b + c)[i];
        assert((a + b + c).contains(x));
        assert(d[j].row > p.row && d[j].col < p.col);
        if a.contains(x) {
            let k = choose|k: int| 0 <= k < a.len() && a[k] == x;
            assert(x.row < p.row);
        } else if b.contains(x) {
            let k = choose|k: int| 0 <= k < b.len() && b[k] == x;
            assert(x.col > p.col);
        } else {
            assert(c.contains(x));
            let k = choose|k: int| 0 <= k < c.len() && c[k] == x;
            assert(x.row < p.row);
        }
    }
    vstd::seq_lib::lemma_no_dup_in_concat(a + b + c, d);
    assert(sc.no_duplicates());
}

/// Every square an on-board square can reach by a king step, each once, in
/// row-major order; a king always has between three and eight of them.
pub fn king_allowed_moves(current_position: Square) -> (r: Vec<Square>)
    requires
        in_board(current_position),
    ensures
        r@ == king_scan(current_position),
        forall|s: Square| r@.contains(s) <==> king_reachable(current_position, s),
        r@.no_duplicates(),
        3 <= r@.len() <= 8,
{
    let p = current_position;
    let mut allowed_moves: Vec<Square> = Vec::new();
    if p.row >= 1 && p.col >= 1 {
        allowed_moves.push(Square { row: p.row - 1, col: p.col - 1 });
    }
    proof {
        assert(allowed_moves@ =~= shifted_square(p, -1, -1));
    }
    if p.row >= 1 {
        allowed_moves.push(Square { row: p.row - 1, col: p.col });
    }
    proof {
        assert(allowed_moves@ =~= shifted_square(p, -1, -1) + shifted_square(p, -1, 0));
    }
    if p.row >= 1 && p.col < 7 {
        allowed_moves.push(Square { row: p.row - 1, col: p.col + 1 });
    }
    proof {
        assert(allowed_moves@ =~= shifted_square(p, -1, -1) + shifted_square(p, -1, 0)
            + shifted_square(p, -1, 1));
    }
    if p.col >= 1 {
        allowed_moves.push(Square { row: p.row, col: p.col - 1 });
    }
    proof {
        assert(allowed_moves@ =~= shifted_square(p, -1, -1) + shifted_square(p, -1, 0)
            + shifted_square(p, -1, 1) + shifted_square(p, 0, -1));
    }
    if p.col < 7 {
        allowed_moves.push(Square { row: p.row, col: p.col + 1 });
    }
    proof {
        assert(allowed_moves@ =~= shifted_square(p, -1, -1) + shifted_square(p, -1, 0)
            + shifted_square(p, -1, 1) + shifted_square(p, 0, -1) + shifted_square(p, 0, 1));
    }
    if p.row < 7 && p.col >= 1 {
        allowed_moves.push(Square { row: p.row + 1, col: p.col - 1 });
    }
    proof {
        assert(allowed_moves@ =~= shifted_square(p, -1, -1) + shifted_square(p, -1, 0)
            + shifted_square(p, -1, 1) + shifted_square(p, 0, -1) + shifted_square(p, 0, 1)
            + shifted_square(p, 1, -1));
    }
    if p.row < 7 {
        allowed_moves.push(Square { row: p.row + 1, col: p.col });
    }
    proof {
        assert(allowed_moves@ =~= shifted_square(p, -1, -1) + shifted_square(p, -1, 0)
            + shifted_square(p, -1, 1) + shifted_square(p, 0, -1) + shifted_square(p, 0, 1)
            + shifted_square(p, 1, -1) + shifted_square(p, 1, 0));
    }
    if p.row < 7 && p.col < 7 {
        allowed_moves.push(Square { row: p.row + 1, col: p.col + 1 });
    }
    proof {
        assert(allowed_moves@ =~= king_scan(p)) by {
            reveal(king_scan);
        }
        lemma_king_scan_props(p);
    }
    allowed_moves
}

/// Every square an on-board square can reach by a knight jump, each once,
/// in the offset-table order (2,1), (2,-1), (-2,1), (-2,-1), (1,2), (1,-2),
/// (-1,2), (-1,-2).
pub fn knight_allowed_moves(current_position: Square) -> (r: Vec<Square>)
    requires
        in_board(current_position),
    ensures
        r@ == knight_scan(current_position),
        forall|s: Square| r@.contains(s) <==> knight_reachable(current_position, s),
        r@.no_duplicates(),
{
    let p = current_position;
    let mut allowed_moves: Vec<Square> = Vec::new();
    if p.row < 6 && p.col < 7 {
        allowed_moves.push(Square { row: p.row + 2, col: p.col + 1 });
    }
    proof {
        assert(allowed_moves@ =~= shifted_square(p, 2, 1));
    }
    if p.row < 6 && p.col >= 1 {
        allowed_moves.push(Square { row: p.row + 2, col: p.col - 1 });
    }
    proof {
        assert(allowed_moves@ =~= shifted_square(p, 2, 1) + shifted_square(p, 2, -1));
    }
    if p.row >= 2 && p.col < 7 {
        allowed_moves.push(Square { row: p.row - 2, col: p.col + 1 });
    }
    proof {
        assert(allowed_moves@ =~= shifted_square(p, 2, 1) + shifted_square(p, 2, -1)
            + shifted_square(p, -2, 1));
    }
    if p.row >= 2 && p.col >= 1 {
        allowed_moves.push(Square { row: p.row - 2, col: p.col - 1 });
    }
    proof {
        assert(allowed_moves@ =~= shifted_square(p, 2, 1) + shifted_square(p, 2, -1)
            + shifted_square(p, -2, 1) + shifted_square(p, -2, -1));
    }
    if p.row < 7 && p.col < 6 {
        allowed_moves.push(Square { row: p.row + 1, col: p.col + 2 });
    }
    proof {
        assert(allowed_moves@ =~= shifted_square(p, 2, 1) + shifted_square(p, 2, -1)
            + shifted_square(p, -2, 1) + shifted_square(p, -2, -1) + shifted_square(p, 1, 2));
    }
    if p.row < 7 && p.col >= 2 {
        allowed_moves.push(Square { row: p.row + 1, col: p.col - 2 });
    }
    proof {
        assert(allowed_moves@ =~= shifted_square(p, 2, 1) + shifted_square(p, 2, -1)
            + shifted_square(p, -2, 1) + shifted_square(p, -2, -1) + shifted_square(p, 1, 2)
            + shifted_square(p, 1, -2));
    }
    if p.row >= 1 && p.col < 6 {
        allowed_moves.push(Square { row: p.row - 1, col: p.col + 2 });
    }
    proof {
        assert(allowed_moves@ =~= shifted_square(p, 2, 1) + shifted_square(p, 2, -1)
            + shifted_square(p, -2, 1) + shifted_square(p, -2, -1) + shifted_square(p, 1, 2)
            + shifted_square(p, 1, -2) + shifted_square(p, -1, 2));
    }
    if p.row >= 1 && p.col >= 2 {
        allowed_moves.push(Square { row: p.row - 1, col: p.col - 2 });
    }
    proof {
        assert(allowed_moves@ =~= knight_scan(p)) by {
            reveal(knight_scan);
        }
        lemma_knight_scan_props(p);
    }
    allowed_moves
}

/// Every square sharing a rank or a file with an on-board square: the rest
/// of its file from top to bottom, then the rest of its rank from left to
/// right — fourteen squares, each once.
pub fn rook_allowed_moves(current_position: Square) -> (r: Vec<Square>)
    requires
        in_board(current_position),
    ensures
        r@ == rook_scan(current_position),
        forall|s: Square| r@.contains(s) <==> rook_reachable(current_position, s),
        r@.no_duplicates(),
        r@.len() == 14,
{
    let p = current_position;
    let mut allowed_moves: Vec<Square> = Vec::new();
    let mut k: usize = 0;
    while k < 7
        invariant
            in_board(p),
            k <= 7,
            allowed_moves@.len() == k,
            forall|j: int| 0 <= j < k ==> allowed_moves@[j] == rook_scan(p)[j],
        decreases 7 - k,
    {
        let row = if k < p.row {
            k
        } else {
            k + 1
        };
        allowed_moves.push(Square { row, col: p.col });
        k = k + 1;
    }
    let mut k: usize = 0;
    while k < 7
        invariant
            in_board(p),
            k <= 7,
            allowed_moves@.len() == 7 + k,
            forall|j: int| 0 <= j < 7 + k ==> allowed_moves@[j] == rook_scan(p)[j],
        decreases 7 - k,
    {
        let col = if k < p.col {
            k
        } else {
            k + 1
        };
        allowed_moves.push(Square { row: p.row, col });
        k = k + 1;
    }
    proof {
        assert(allowed_moves@ =~= rook_scan(p));
        lemma_rook_scan_props(p);
    }
    allowed_moves
}

/// Every square sharing a diagonal with an on-board square, each once: the
/// four rays walked outward, up-left, down-right, up-right, then down-left.
pub fn bishop_allowed_moves(current_position: Square) -> (r: Vec<Square>)
    requires
        in_board(current_position),
    ensures
        r@ == bishop_scan(current_position),
        forall|s: Square| r@.contains(s) <==> bishop_reachable(current_position, s),
        r@.no_duplicates(),
{
    let p = current_position;
    let mut allowed_moves: Vec<Square> = Vec::new();

    let steps_up_left = if p.row <= p.col {
        p.row
    } else {
        p.col
    };
    let mut k: usize = 0;
    while k < steps_up_left
        invariant
            in_board(p),
            steps_up_left == ray_len(p, -1, -1),
            k <= steps_up_left,
            allowed_moves@ == diagonal_ray(p, -1, -1).subrange(0, k as int),
        decreases steps_up_left - k,
    {
        allowed_moves.push(Square { row: p.row - (k + 1), col: p.col - (k + 1) });
        proof {
            assert(allowed_moves@ =~= diagonal_ray(p, -1, -1).subrange(0, k + 1));
        }
        k = k + 1;
    }
    proof {
        assert(allowed_moves@ =~= diagonal_ray(p, -1, -1));
    }

    let steps_down_right = if 7 - p.row <= 7 - p.col {
        7 - p.row
    } else {
        7 - p.col
    };
    let mut k: usize = 0;
    while k < steps_down_right
        invariant
            in_board(p),
            steps_down_right == ray_len(p, 1, 1),
            k <= steps_down_right,
            allowed_moves@ == diagonal_ray(p, -1, -1) + diagonal_ray(p, 1, 1).subrange(
                0,
                k as int,
            ),
        decreases steps_down_right - k,
    {
        allowed_moves.push(Square { row: p.row + (k + 1), col: p.col + (k + 1) });
        proof {
            assert(allowed_moves@ =~= diagonal_ray(p, -1, -1) + diagonal_ray(p, 1, 1).subrange(
                0,
                k + 1,
            ));
        }
        k = k + 1;
    }
    proof {
        assert(allowed_moves@ =~= diagonal_ray(p, -1, -1) + diagonal_ray(p, 1, 1));
    }

    let steps_up_right = if p.row <= 7 - p.col {
        p.row
    } else {
        7 - p.col
    };
    let mut k: usize = 0;
    while k < steps_up_right
        invariant
            in_board(p),
            steps_up_right == ray_len(p, -1, 1),
            k <= steps_up_right,
            allowed_moves@ == diagonal_ray(p, -1, -1) + diagonal_ray(p, 1, 1) + diagonal_ray(
                p,
                -1,
                1,
            ).subrange(0, k as int),
        decreases steps_up_right - k,
    {
        allowed_moves.push(Square { row: p.row - (k + 1), col: p.col + (k + 1) });
        proof {
            assert(allowed_moves@ =~= diagonal_ray(p, -1, -1) + diagonal_ray(p, 1, 1)
                + diagonal_ray(p, -1, 1).subrange(0, k + 1));
        }
        k = k + 1;
    }
    proof {
        assert(allowed_moves@ =~= diagonal_ray(p, -1, -1) + diagonal_ray(p, 1, 1) + diagonal_ray(
            p,
            -1,
            1,
        ));
    }

    let steps_down_left = if 7 - p.row <= p.col {
        7 - p.row
    } else {
        p.col
    };
    let mut k: usize = 0;
    while k < steps_down_left
        invariant
            in_board(p),
            steps_down_left == ray_len(p, 1, -1),
            k <= steps_down_left,
            allowed_moves@ == diagonal_ray(p, -1, -1) + diagonal_ray(p, 1, 1) + diagonal_ray(
                p,
                -1,
                1,
            ) + diagonal_ray(p, 1, -1).subrange(0, k as int),
        decreases steps_down_left - k,
    {
        allowed_moves.push(Square { row: p.row + (k + 1), col: p.col - (k + 1) });
        proof {
            assert(allowed_moves@ =~= diagonal_ray(p, -1, -1) + diagonal_ray(p, 1, 1)
                + diagonal_ray(p, -1, 1) + diagonal_ray(p, 1, -1).subrange(0, k + 1));
        }
        k = k + 1;
    }
    proof {
        assert(allowed_moves@ =~= bishop_scan(p)) by {
            reveal(bishop_scan);
            assert(diagonal_ray(p, 1, -1).subrange(0, steps_down_left as int) =~= diagonal_ray(
                p,
                1,
                -1,
            ));
        }
        lemma_bishop_scan_props(p);
    }
    allowed_moves
}

/// The destinations of a pawn's non-capturing moves: one square ahead, and
/// two squares ahead from the starting rank.
pub open spec fn pawn_forward_set(from: Square, color: ChessPieceColor, s: Square) -> bool {
    match color {
        ChessPieceColor::Black => ((from.row < 7 && s == Square {
            row: (from.row + 1) as usize,
            col: from.col,
        }) || (from.row == 1 && s == Square { row: 3, col: from.col })),
        ChessPieceColor::White => ((from.row > 0 && s == Square {
            row: (from.row - 1) as usize,
            col: from.col,
        }) || (from.row == 6 && s == Square { row: 4, col: from.col })),
    }
}

/// The destinations of a pawn's captures: the two squares diagonally ahead.
pub open spec fn pawn_capture_set(from: Square, color: ChessPieceColor, s: Square) -> bool {
    match color {
        ChessPieceColor::Black => from.row < 7 && ((from.col > 0 && s == Square {
            row: (from.row + 1) as usize,
            col: (from.col - 1) as usize,
        }) || (from.col < 7 && s == Square {
            row: (from.row + 1) as usize,
            col: (from.col + 1) as usize,
        })),
        ChessPieceColor::White => from.row > 0 && ((from.col > 0 && s == Square {
            row: (from.row - 1) as usize,
            col: (from.col - 1) as usize,
        }) || (from.col < 7 && s == Square {
            row: (from.row - 1) as usize,
            col: (from.col + 1) as usize,
        })),
    }
}

/// The pawn's non-capturing destinations in order: the single step, then the
/// double step from the starting rank.
pub open spec fn pawn_forward_scan(from: Square, color: ChessPieceColor) -> Seq<Square> {
    match color {
        ChessPieceColor::Black => if from.row < 7 {
            if from.row == 1 {
                seq![
                    Square { row: (from.row + 1) as usize, col: from.col },
                    Square { row: 3, col: from.col },
                ]
            } else {
                seq![Square { row: (from.row + 1) as usize, col: from.col }]
            }
        } else {
            Seq::empty()
        },
        ChessPieceColor::White => if from.row > 0 {
            if from.row == 6 {
                seq![
                    Square { row: (from.row - 1) as usize, col: from.col },
                    Square { row: 4, col: from.col },
                ]
            } else {
                seq![Square { row: (from.row - 1) as usize, col: from.col }]
            }
        } else {
            Seq::empty()
        },
    }
}

/// The pawn's capture destinations in order: the forward-left square, then
/// the forward-right one, each only when it lies on the board.
pub open spec fn pawn_capture_scan(from: Square, color: ChessPieceColor) -> Seq<Square> {
    match color {
        ChessPieceColor::Black => if from.row < 7 {
            (if from.col > 0 {
                seq![
                    Square { row: (from.row + 1) as usize, col: (from.col - 1) as usize },
                ]
            } else {
                Seq::empty()
            }) + (if from.col < 7 {
                seq![
                    Square { row: (from.row + 1) as usize, col: (from.col + 1) as usize },
                ]
            } else {
                Seq::empty()
            })
        } else {
            Seq::empty()
        },
        ChessPieceColor::White => if from.row > 0 {
            (if from.col > 0 {
                seq![
                    Square { row: (from.row - 1) as usize, col: (from.col - 1) as usize },
                ]
            } else {
                Seq::empty()
            }) + (if from.col < 7 {
                seq![
                    Square { row: (from.row - 1) as usize, col: (from.col + 1) as usize },
                ]
            } else {
                Seq::empty()
            })
        } else {
            Seq::empty()
        },
    }
}

/// The destinations of a pawn's non-capturing moves: at most two, the single
/// step before the double one.
pub fn pawn_allowed_move(current_position: Square, color: ChessPieceColor) -> (r: Vec<Square>)
    requires
        in_board(current_position),
    ensures
        r@ == pawn_forward_scan(current_position, color),
        forall|s: Square| r@.contains(s) <==> pawn_forward_set(current_position, color, s),
        r@.no_duplicates(),
        r@.len() <= 2,
{
    let mut allowed_moves: Vec<Square> = Vec::new();
    match color {
        ChessPieceColor::Black => {
            if current_position.row < 7 {
                allowed_moves.push(
                    Square { row: current_position.row + 1, col: current_position.col },
                );
                if current_position.row == 1 {
                    allowed_moves.push(Square { row: 3, col: current_position.col });
                }
            }
        },
        ChessPieceColor::White => {
            if current_position.row > 0 {
                allowed_moves.push(
                    Square { row: current_position.row - 1, col: current_position.col },
                );
                if current_position.row == 6 {
                    allowed_moves.push(Square { row: 4, col: current_position.col });
                }
            }
        },
    }
    proof {
        assert(allowed_moves@ =~= pawn_forward_scan(current_position, color));
    }
    allowed_moves
}

/// The destinations of a pawn's captures: at most two, forward-left before
/// forward-right.
pub fn pawn_allowed_capture(current_position: Square, color: ChessPieceColor) -> (r: Vec<Square>)
    requires
        in_board(current_position),
    ensures
        r@ == pawn_capture_scan(current_position, color),
        forall|s: Square| r@.contains(s) <==> pawn_capture_set(current_position, color, s),
        r@.no_duplicates(),
        r@.len() <= 2,
{
    let mut allowed_moves: Vec<Square> = Vec::new();
    match color {
        ChessPieceColor::Black => {
            if current_position.row < 7 {
                if current_position.col > 0 {
                    allowed_moves.push(
                        Square { row: current_position.row + 1, col: current_position.col - 1 },
                    );
                }
                if current_position.col < 7 {
                    allowed_moves.push(
                        Square { row: current_position.row + 1, col: current_position.col + 1 },
                    );
                }
            }
        },
        ChessPieceColor::White => {
            if current_position.row > 0 {
                if current_position.col > 0 {
                    allowed_moves.push(
                        Square { row: current_position.row - 1, col: current_position.col - 1 },
                    );
                }
                if current_position.col < 7 {
                    allowed_moves.push(
                        Square { row: current_position.row - 1, col: current_position.col + 1 },
                    );
                }
            }
        },
    }
    proof {
        assert(allowed_moves@ =~= pawn_capture_scan(current_position, color));
    }
    allowed_moves
}

/// Every square a queen can reach: the rook's set, then the bishop's — the
/// two are disjoint, so each square appears once.
pub fn queen_allowed_moves(current_position: Square) -> (r: Vec<Square>)
    requires
        in_board(current_position),
    ensures
        r@ == rook_scan(current_position) + bishop_scan(current_position),
        forall|s: Square|
            r@.contains(s) <==> (rook_reachable(current_position, s) || bishop_reachable(
                current_position,
                s,
            )),
        r@.no_duplicates(),
{
    let p = current_position;
    let mut allowed_moves: Vec<Square> = Vec::new();
    let rook_moves = rook_allowed_moves(p);
    let bishop_moves = bishop_allowed_moves(p);
    let mut i: usize = 0;
    while i < rook_moves.len()
        invariant
            i <= rook_moves@.len(),
            allowed_moves@ == rook_moves@.subrange(0, i as int),
        decreases rook_moves@.len() - i,
    {
        allowed_moves.push(rook_moves[i]);
        proof {
            assert(allowed_moves@ =~= rook_moves@.subrange(0, i + 1));
        }
        i = i + 1;
    }
    proof {
        assert(allowed_moves@ =~= rook_moves@);
    }
    let mut j: usize = 0;
    while j < bishop_moves.len()
        invariant
            j <= bishop_moves@.len(),
            allowed_moves@ == rook_moves@ + bishop_moves@.subrange(0, j as int),
        decreases bishop_moves@.len() - j,
    {
        allowed_moves.push(bishop_moves[j]);
        proof {
            assert(allowed_moves@ =~= rook_moves@ + bishop_moves@.subrange(0, j + 1));
        }
        j = j + 1;
    }
    proof {
        assert(allowed_moves@ =~= rook_moves@ + bishop_moves@);
        assert forall|i2: int, j2: int|
            0 <= i2 < rook_moves@.len() && 0 <= j2 < bishop_moves@.len() implies rook_moves@[i2]
            != bishop_moves@[j2] by {
            assert(rook_moves@.contains(rook_moves@[i2]));
            assert(bishop_moves@.contains(bishop_moves@[j2]));
            assert(rook_reachable(p, rook_moves@[i2]));
            assert(bishop_reachable(p, bishop_moves@[j2]));
        }
        vstd::seq_lib::lemma_no_dup_in_concat(rook_moves@, bishop_moves@);
    }
    allowed_moves
}

/// Every destination a pawn's geometry offers: its forward moves, then its
/// captures — disjoint sets, so each square appears once.
pub fn pawn_all_allowed_move(current_position: Square, color_piece: ChessPieceColor) -> (r: Vec<
    Square,
>)
    requires
        in_board(current_position),
    ensures
        r@ == pawn_forward_scan(current_position, color_piece) + pawn_capture_scan(
            current_position,
            color_piece,
        ),
        forall|s: Square|
            r@.contains(s) <==> (pawn_forward_set(current_position, color_piece, s)
                || pawn_capture_set(current_position, color_piece, s)),
        r@.no_duplicates(),
        r@.len() <= 4,
{
    let mut allowed_moves: Vec<Square> = Vec::new();
    let forward_moves = pawn_allowed_move(current_position, color_piece);
    let capture_moves = pawn_allowed_capture(current_position, color_piece);
    let mut i: usize = 0;
    while i < forward_moves.len()
        invariant
            i <= forward_moves@.len(),
            allowed_moves@ == forward_moves@.subrange(0, i as int),
        decreases forward_moves@.len() - i,
    {
        allowed_moves.push(forward_moves[i]);
        proof {
            assert(allowed_moves@ =~= forward_moves@.subrange(0, i + 1));
        }
        i = i + 1;
    }
    proof {
        assert(allowed_moves@ =~= forward_moves@);
    }
    let mut j: usize = 0;
    while j < capture_moves.len()
        invariant
            j <= capture_moves@.len(),
            allowed_moves@ == forward_moves@ + capture_moves@.subrange(0, j as int),
        decreases capture_moves@.len() - j,
    {
        allowed_moves.push(capture_moves[j]);
        proof {
            assert(allowed_moves@ =~= forward_moves@ + capture_moves@.subrange(0, j + 1));
        }
        j = j + 1;
    }
    proof {
        assert(allowed_moves@ =~= forward_moves@ + capture_moves@);
        assert forall|i2: int, j2: int|
            0 <= i2 < forward_moves@.len() && 0 <= j2 < capture_moves@.len()
            implies forward_moves@[i2] != capture_moves@[j2] by {
            assert(forward_moves@.contains(forward_moves@[i2]));
            assert(capture_moves@.contains(capture_moves@[j2]));
        }
        vstd::seq_lib::lemma_no_dup_in_concat(forward_moves@, capture_moves@);
    }
    allowed_moves
}

} // verus!
