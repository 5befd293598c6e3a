//! Adversarial search: a depth-limited minimax with alpha-beta pruning over
//! speculative copies of the game state, evaluating boards by material.

use vstd::prelude::*;

use crate::chessboard::{cell, BoardModel, Chessboard};
use crate::chessboard_validation::move_validation;
use crate::piece_actions::candidate_dest;
use crate::piece_type::{
    idx_of, in_board, ChessPiece, ChessPieceColor, ChessPieceType, Square,
};
use crate::utilities::is_valid_move;

verus! {

broadcast use vstd::seq_lib::lemma_seq_contains_after_push;

/// The material value of a piece kind. Kings carry no material value: they
/// never leave the board.
pub open spec fn piece_value(kind: ChessPieceType) -> int {
    match kind {
        ChessPieceType::King => 0,
        ChessPieceType::Rook => 5,
        ChessPieceType::Bishop => 3,
        ChessPieceType::Queen => 9,
        ChessPieceType::Knight => 3,
        ChessPieceType::Pawn => 1,
    }
}

/// The contribution of one cell to the board score: positive for White,
/// negative for Black.
pub open spec fn signed_value(c: Option<ChessPiece>) -> int {
    match c {
        Some(p) => if p.color is White {
            piece_value(p.piece)
        } else {
            -piece_value(p.piece)
        },
        None => 0,
    }
}

/// The material sum of the first `n` cells of a grid.
pub open spec fn score_prefix(grid: Seq<Option<ChessPiece>>, n: int) -> int
    decreases n,
{
    if n <= 0 {
        0
    } else {
        score_prefix(grid, n - 1) + signed_value(grid[n - 1])
    }
}

/// The static evaluation of a board: White's material minus Black's.
pub open spec fn board_score(m: BoardModel) -> int {
    score_prefix(m.grid, 64)
}

/// Every cell contributes at most nine points either way.
proof fn lemma_score_prefix_bound(grid: Seq<Option<ChessPiece>>, n: int)
    requires
        0 <= n,
    ensures
        -9 * n <= score_prefix(grid, n) <= 9 * n,
    decreases n,
{
    if n > 0 {
        lemma_score_prefix_bound(grid, n - 1);
    }
}

/// A board's material score fits well inside the evaluation window.
pub proof fn lemma_board_score_bounds(m: BoardModel)
    ensures
        -576 <= board_score(m) <= 576,
{
    lemma_score_prefix_bound(m.grid, 64);
}

/// The material-based static evaluation of the current board.
pub fn calculate_score(chessboard: &Chessboard) -> (r: i32)
    ensures
        r == board_score(chessboard@),
{
    let mut score: i32 = 0;
    let mut i: usize = 0;
    while i < 64
        invariant
            i <= 64,
            score == score_prefix(chessboard@.grid, i as int),
            -9 * i <= score <= 9 * i,
        decreases 64 - i,
    {
        match chessboard.board[i] {
            Some(p) => {
                let v: i32 = match p.piece {
                    ChessPieceType::King => 0,
                    ChessPieceType::Rook => 5,
                    ChessPieceType::Bishop => 3,
                    ChessPieceType::Queen => 9,
                    ChessPieceType::Knight => 3,
                    ChessPieceType::Pawn => 1,
                };
                match p.color {
                    ChessPieceColor::White => score = score + v,
                    ChessPieceColor::Black => score = score - v,
                }
            },
            None => {},
        }
        i = i + 1;
    }
    score
}

/// Every piece of the given color on the board, each standing at its
/// recorded position.
pub fn get_all_pieces(chessboard: &Chessboard, color: ChessPieceColor) -> (r: Vec<ChessPiece>)
    requires
        chessboard.wf(),
    ensures
        forall|k: int|
            0 <= k < r@.len() ==> {
                let p = #[trigger] r@[k];
                in_board(p.position) && cell(chessboard@, p.position) == Some(p) && p.color
                    == color
            },
        forall|s: Square|
            in_board(s) ==> match #[trigger] cell(chessboard@, s) {
                Some(p) => p.color == color ==> r@.contains(p),
                None => true,
            },
        r@.no_duplicates(),
{
    let mut pieces: Vec<ChessPiece> = Vec::new();
    let mut i: usize = 0;
    while i < 64
        invariant
            chessboard.wf(),
            i <= 64,
            forall|k: int|
                0 <= k < pieces@.len() ==> {
                    let p = #[trigger] pieces@[k];
                    in_board(p.position) && cell(chessboard@, p.position) == Some(p) && p.color
                        == color
                },
            forall|k: int| 0 <= k < pieces@.len() ==> idx_of(#[trigger] pieces@[k].position) < i,
            forall|a: int, b: int|
                #![trigger pieces@[a], pieces@[b]]
                0 <= a < b < pieces@.len() ==> idx_of(pieces@[a].position) < idx_of(
                    pieces@[b].position,
                ),
            forall|s: Square|
                in_board(s) && idx_of(s) < i ==> match #[trigger] cell(chessboard@, s) {
                    Some(p) => p.color == color ==> pieces@.contains(p),
                    None => true,
                },
        decreases 64 - i,
    {
        let s = Square { row: i / 8, col: i % 8 };
        proof {
            assert(idx_of(s) == i);
        }
        match chessboard.board[i] {
            Some(p) => {
                if p.color == color {
                    pieces.push(p);
                }
            },
            None => {},
        }
        proof {
            assert forall|t: Square| in_board(t) && idx_of(t) < i + 1 implies match cell(
                chessboard@,
                t,
            ) {
                Some(p) => p.color == color ==> pieces@.contains(p),
                None => true,
            } by {
                if idx_of(t) == i {
                    crate::utilities::lemma_idx_of_injective(t, s);
                }
            }
        }
        i = i + 1;
    }
    proof {
        assert forall|a: int, b: int|
            0 <= a < pieces@.len() && 0 <= b < pieces@.len() && a != b implies pieces@[a]
            != pieces@[b] by {
            if a < b {
                assert(idx_of(pieces@[a].position) < idx_of(pieces@[b].position));
            } else {
                assert(idx_of(pieces@[b].position) < idx_of(pieces@[a].position));
            }
        }
    }
    pieces
}

/// A move the search can choose: the origin holds a piece of the side to
/// move, the destination belongs to that piece's geometric move set, and the
/// legality validator accepts the move (with a queen as the speculative
/// promotion choice).
pub open spec fn candidate_legal(m: BoardModel, from: Square, to: Square) -> bool {
    &&& in_board(from)
    &&& match cell(m, from) {
        Some(p) => p.color == m.turn && candidate_dest(p, to),
        None => false,
    }
    &&& move_validation(m, from, to, ChessPieceType::Queen) is Ok
}

/// The side to move has at least one move the search can choose.
pub open spec fn has_candidate_move(m: BoardModel) -> bool {
    exists|from: Square, to: Square| candidate_legal(m, from, to)
}

/// The material score of the board an accepted root move leaves behind.
pub open spec fn root_score(m: BoardModel, from: Square, to: Square) -> int {
    match move_validation(m, from, to, ChessPieceType::Queen) {
        Ok(m2) => board_score(m2),
        Err(_) => 0,
    }
}

/// Whether `v` is no better than `best` for the given side: no larger when
/// the side maximizes, no smaller when it minimizes.
pub open spec fn no_better(maximizing: bool, v: int, best: int) -> bool {
    if maximizing {
        v <= best
    } else {
        v >= best
    }
}

/// Depth-limited minimax with alpha-beta pruning. Returns the best score
/// seen and, at depth one or more, a legal move realizing the search's
/// choice whenever the side to move has one. At depth one over the full
/// evaluation window nothing is ever pruned, so the chosen move's score is
/// exact and no candidate move evaluates better. At greater depths the
/// contract stops at legality: that the pruned search still attains the
/// unpruned minimax value is not stated here, and nothing below relies on
/// it.
#[verifier::loop_isolation(false)]
#[verifier::rlimit(100)]
fn minimax(
    chessboard: &Chessboard,
    depth: i32,
    initial_alpha: i32,
    initial_beta: i32,
    maximizing_player: bool,
) -> (r: (i32, Option<(Square, Square)>))
    requires
        chessboard.wf(),
        depth >= 0,
    ensures
        r.1 matches Some(mv) ==> candidate_legal(chessboard@, mv.0, mv.1),
        depth >= 1 && has_candidate_move(chessboard@) ==> r.1 is Some,
        depth == 0 ==> r.0 == board_score(chessboard@) && r.1 is None,
        (depth == 1 && initial_alpha == i32::MIN && initial_beta == i32::MAX) ==> {
            &&& (r.1 matches Some(mv) ==> r.0 == root_score(chessboard@, mv.0, mv.1))
            &&& forall|f: Square, t: Square| #[trigger]
                candidate_legal(chessboard@, f, t) ==> no_better(
                    maximizing_player,
                    root_score(chessboard@, f, t),
                    r.0 as int,
                )
        },
    decreases depth,
{
    if depth == 0 {
        return (calculate_score(chessboard), None);
    }
    let ghost m = chessboard@;
    let ghost full_window_d1 = depth == 1 && initial_alpha == i32::MIN && initial_beta
        == i32::MAX;
    let all_pieces = get_all_pieces(chessboard, chessboard.player_turn);
    let mut alpha = initial_alpha;
    let mut beta = initial_beta;
    let mut best_move: Option<(Square, Square)> = None;
    let mut best_eval: i32 = if maximizing_player {
        i32::MIN
    } else {
        i32::MAX
    };
    let mut pi: usize = 0;
    while pi < all_pieces.len()
        invariant
            pi <= all_pieces@.len(),
            best_move matches Some(mv) ==> candidate_legal(m, mv.0, mv.1),
            best_move is None ==> forall|k: int, t: Square|
                0 <= k < pi ==> !(#[trigger] candidate_dest(all_pieces@[k], t) && move_validation(
                    m,
                    all_pieces@[k].position,
                    t,
                    ChessPieceType::Queen,
                ) is Ok),
            maximizing_player ==> beta == initial_beta,
            !maximizing_player ==> alpha == initial_alpha,
            full_window_d1 ==> (alpha == i32::MIN || -576 <= alpha <= 576),
            full_window_d1 ==> (beta == i32::MAX || -576 <= beta <= 576),
            full_window_d1 ==> (best_move matches Some(mv) ==> best_eval == root_score(
                m,
                mv.0,
                mv.1,
            )),
            full_window_d1 ==> forall|k: int, t: Square|
                0 <= k < pi && #[trigger] candidate_dest(all_pieces@[k], t) && move_validation(
                    m,
                    all_pieces@[k].position,
                    t,
                    ChessPieceType::Queen,
                ) is Ok ==> no_better(
                    maximizing_player,
                    root_score(m, all_pieces@[k].position, t),
                    best_eval as int,
                ),
        decreases all_pieces@.len() - pi,
    {
        let piece = all_pieces[pi];
        let allowed_moves = piece.allowed_moves();
        let mut mi: usize = 0;
        let mut pruned = false;
        while mi < allowed_moves.len() && !pruned
            invariant
                mi <= allowed_moves@.len(),
                best_move matches Some(mv) ==> candidate_legal(m, mv.0, mv.1),
                pruned ==> best_move is Some,
                best_move is None ==> forall|k: int, t: Square|
                    0 <= k < pi ==> !(#[trigger] candidate_dest(all_pieces@[k], t)
                        && move_validation(
                        m,
                        all_pieces@[k].position,
                        t,
                        ChessPieceType::Queen,
                    ) is Ok),
                best_move is None ==> forall|j: int|
                    0 <= j < mi ==> !(move_validation(
                        m,
                        piece.position,
                        #[trigger] allowed_moves@[j],
                        ChessPieceType::Queen,
                    ) is Ok),
                maximizing_player ==> beta == initial_beta,
                !maximizing_player ==> alpha == initial_alpha,
                full_window_d1 ==> !pruned,
                full_window_d1 ==> (alpha == i32::MIN || -576 <= alpha <= 576),
                full_window_d1 ==> (beta == i32::MAX || -576 <= beta <= 576),
                full_window_d1 ==> (best_move matches Some(mv) ==> best_eval == root_score(
                    m,
                    mv.0,
                    mv.1,
                )),
                full_window_d1 ==> forall|k: int, t: Square|
                    0 <= k < pi && #[trigger] candidate_dest(all_pieces@[k], t) && move_validation(
                        m,
                        all_pieces@[k].position,
                        t,
                        ChessPieceType::Queen,
                    ) is Ok ==> no_better(
                        maximizing_player,
                        root_score(m, all_pieces@[k].position, t),
                        best_eval as int,
                    ),
                full_window_d1 ==> forall|j: int|
                    0 <= j < mi && move_validation(
                        m,
                        piece.position,
                        #[trigger] allowed_moves@[j],
                        ChessPieceType::Queen,
                    ) is Ok ==> no_better(
                        maximizing_player,
                        root_score(m, piece.position, allowed_moves@[j]),
                        best_eval as int,
                    ),
            decreases allowed_moves@.len() - mi,
        {
            let move_position = allowed_moves[mi];
            let mut temp_chessboard = chessboard.clone();
            let move_result_message = temp_chessboard.move_piece(
                piece.position,
                move_position,
                ChessPieceType::Queen,
            );
            if is_valid_move(&move_result_message) {
                proof {
                    assert(allowed_moves@.contains(allowed_moves@[mi as int]));
                    assert(candidate_legal(m, piece.position, move_position));
                }
                let (eval, _) = minimax(&temp_chessboard, depth - 1, alpha, beta, !maximizing_player);
                proof {
                    if full_window_d1 {
                        assert(eval == root_score(m, piece.position, move_position)) by {
                            assert(match move_validation(
                                m,
                                piece.position,
                                move_position,
                                ChessPieceType::Queen,
                            ) {
                                Ok(m2) => temp_chessboard@ == m2 && eval == board_score(m2),
                                Err(_) => false,
                            });
                        }
                        lemma_board_score_bounds(temp_chessboard@);
                    }
                }
                let improves = match best_move {
                    None => true,
                    Some(_) => if maximizing_player {
                        eval > best_eval
                    } else {
                        eval < best_eval
                    },
                };
                if improves {
                    best_eval = eval;
                    best_move = Some((piece.position, move_position));
                    if maximizing_player {
                        if best_eval > alpha {
                            alpha = best_eval;
                        }
                    } else {
                        if best_eval < beta {
                            beta = best_eval;
                        }
                    }
                    if beta <= alpha {
                        pruned = true;
                    }
                }
            }
            mi = mi + 1;
        }
        proof {
            if best_move is None {
                assert forall|t: Square|
                    !(candidate_dest(piece, t) && move_validation(
                        m,
                        piece.position,
                        t,
                        ChessPieceType::Queen,
                    ) is Ok) by {
                    if candidate_dest(piece, t) {
                        assert(allowed_moves@.contains(t));
                        let j = choose|j: int|
                            0 <= j < allowed_moves@.len() && allowed_moves@[j] == t;
                        assert(!(move_validation(
                            m,
                            piece.position,
                            allowed_moves@[j],
                            ChessPieceType::Queen,
                        ) is Ok));
                    }
                }
                assert forall|k: int, t: Square|
                    0 <= k < pi + 1 implies !(#[trigger] candidate_dest(all_pieces@[k], t)
                    && move_validation(
                    m,
                    all_pieces@[k].position,
                    t,
                    ChessPieceType::Queen,
                ) is Ok) by {
                    if k == pi as int {
                        assert(all_pieces@[k] == piece);
                        assert(!(candidate_dest(piece, t) && move_validation(
                            m,
                            piece.position,
                            t,
                            ChessPieceType::Queen,
                        ) is Ok));
                    }
                }
            }
            if full_window_d1 {
                assert(mi == allowed_moves@.len());
                assert forall|t: Square|
                    candidate_dest(piece, t) && move_validation(
                        m,
                        piece.position,
                        t,
                        ChessPieceType::Queen,
                    ) is Ok implies no_better(
                    maximizing_player,
                    root_score(m, piece.position, t),
                    best_eval as int,
                ) by {
                    assert(allowed_moves@.contains(t));
                    let j = choose|j: int| 0 <= j < allowed_moves@.len() && allowed_moves@[j] == t;
                    assert(move_validation(
                        m,
                        piece.position,
                        allowed_moves@[j],
                        ChessPieceType::Queen,
                    ) is Ok);
                }
                assert forall|k: int, t: Square|
                    0 <= k < pi + 1 && #[trigger] candidate_dest(all_pieces@[k], t)
                        && move_validation(
                        m,
                        all_pieces@[k].position,
                        t,
                        ChessPieceType::Queen,
                    ) is Ok implies no_better(
                    maximizing_player,
                    root_score(m, all_pieces@[k].position, t),
                    best_eval as int,
                ) by {
                    if k == pi as int {
                        assert(all_pieces@[k] == piece);
                    }
                }
            }
        }
        pi = pi + 1;
    }
    proof {
        if best_move is None && has_candidate_move(m) {
            let (from, to) = choose|from: Square, to: Square| candidate_legal(m, from, to);
            match cell(m, from) {
                Some(p) => {
                    assert(p.position == from) by {
                        crate::utilities::lemma_idx_of_injective(p.position, from);
                    }
                    assert(all_pieces@.contains(p));
                    let k = choose|k: int| 0 <= k < all_pieces@.len() && all_pieces@[k] == p;
                    assert(!(candidate_dest(all_pieces@[k], to) && move_validation(
                        m,
                        all_pieces@[k].position,
                        to,
                        ChessPieceType::Queen,
                    ) is Ok));
                },
                None => {},
            }
        }
        if full_window_d1 {
            assert forall|f: Square, t: Square| #[trigger]
                candidate_legal(m, f, t) implies no_better(
                maximizing_player,
                root_score(m, f, t),
                best_eval as int,
            ) by {
                match cell(m, f) {
                    Some(p) => {
                        assert(p.position == f) by {
                            crate::utilities::lemma_idx_of_injective(p.position, f);
                        }
                        assert(all_pieces@.contains(p));
                        let k = choose|k: int| 0 <= k < all_pieces@.len() && all_pieces@[k] == p;
                        assert(candidate_dest(all_pieces@[k], t) && move_validation(
                            m,
                            all_pieces@[k].position,
                            t,
                            ChessPieceType::Queen,
                        ) is Ok);
                    },
                    None => {},
                }
            }
        }
    }
    (best_eval, best_move)
}

/// The search's chosen move for the side to move, never mutating the given
/// state: White maximizes the material score, Black minimizes it. Callers
/// must have ruled out a finished game first: some candidate move must be
/// legal (`has_legal_move` is the executable test). At depth one the chosen
/// move is optimal: no candidate move leaves a better material score for the
/// side to move. At greater depths the contract promises a legal candidate
/// move and no more; the chosen move's tie to the deeper minimax value is
/// left unstated.
pub fn get_best_move(chessboard: &Chessboard, depth: i32) -> (r: (Square, Square))
    requires
        chessboard.wf(),
        depth >= 1,
        has_candidate_move(chessboard@),
    ensures
        candidate_legal(chessboard@, r.0, r.1),
        depth == 1 ==> forall|f: Square, t: Square| #[trigger]
            candidate_legal(chessboard@, f, t) ==> no_better(
                chessboard@.turn is White,
                root_score(chessboard@, f, t),
                root_score(chessboard@, r.0, r.1),
            ),
{
    let maximizing_player = matches!(chessboard.player_turn, ChessPieceColor::White);
    let (_, best_move) = minimax(chessboard, depth, i32::MIN, i32::MAX, maximizing_player);
    match best_move {
        Some(mv) => mv,
        None => {
            proof {
                assert(false);
            }
            (Square { row: 0, col: 0 }, Square { row: 0, col: 0 })
        },
    }
}

/// Whether the side to move has any move the search could choose: the
/// executable test for `has_candidate_move`, letting a caller detect a
/// finished position (checkmate or stalemate) before invoking the search.
/// A position whose only legal move would be a castling does not count: the
/// search's enumeration leaves castling out.
#[verifier::loop_isolation(false)]
#[verifier::rlimit(100)]
pub fn has_legal_move(chessboard: &Chessboard) -> (r: bool)
    requires
        chessboard.wf(),
    ensures
        r == has_candidate_move(chessboard@),
{
    let ghost m = chessboard@;
    let all_pieces = get_all_pieces(chessboard, chessboard.player_turn);
    let mut pi: usize = 0;
    while pi < all_pieces.len()
        invariant
            pi <= all_pieces@.len(),
            forall|k: int, t: Square|
                0 <= k < pi ==> !(#[trigger] candidate_dest(all_pieces@[k], t) && move_validation(
                    m,
                    all_pieces@[k].position,
                    t,
                    ChessPieceType::Queen,
                ) is Ok),
        decreases all_pieces@.len() - pi,
    {
        let piece = all_pieces[pi];
        let allowed_moves = piece.allowed_moves();
        let mut mi: usize = 0;
        while mi < allowed_moves.len()
            invariant
                mi <= allowed_moves@.len(),
                forall|j: int|
                    0 <= j < mi ==> !(move_validation(
                        m,
                        piece.position,
                        #[trigger] allowed_moves@[j],
                        ChessPieceType::Queen,
                    ) is Ok),
            decreases allowed_moves@.len() - mi,
        {
            let move_position = allowed_moves[mi];
            let mut temp_chessboard = chessboard.clone();
            let move_result_message = temp_chessboard.move_piece(
                piece.position,
                move_position,
                ChessPieceType::Queen,
            );
            if is_valid_move(&move_result_message) {
                proof {
                    assert(allowed_moves@.contains(allowed_moves@[mi as int]));
                    assert(candidate_legal(m, piece.position, move_position));
                }
                return true;
            }
            mi = mi + 1;
        }
        proof {
            assert forall|k: int, t: Square|
                0 <= k < pi + 1 implies !(#[trigger] candidate_dest(all_pieces@[k], t)
                && move_validation(
                m,
                all_pieces@[k].position,
                t,
                ChessPieceType::Queen,
            ) is Ok) by {
                if k == pi as int {
                    assert(all_pieces@[k] == piece);
                    if candidate_dest(piece, t) {
                        assert(allowed_moves@.contains(t));
                        let j = choose|j: int|
                            0 <= j < allowed_moves@.len() && allowed_moves@[j] == t;
                        assert(!(move_validation(
                            m,
                            piece.position,
                            allowed_moves@[j],
                            ChessPieceType::Queen,
                        ) is Ok));
                    }
                }
            }
        }
        pi = pi + 1;
    }
    proof {
        if has_candidate_move(m) {
            let (from, to) = choose|from: Square, to: Square| candidate_legal(m, from, to);
            match cell(m, from) {
                Some(p) => {
                    assert(p.position == from) by {
                        crate::utilities::lemma_idx_of_injective(p.position, from);
                    }
                    assert(all_pieces@.contains(p));
                    let k = choose|k: int| 0 <= k < all_pieces@.len() && all_pieces@[k] == p;
                    assert(!(candidate_dest(all_pieces@[k], to) && move_validation(
                        m,
                        all_pieces@[k].position,
                        to,
                        ChessPieceType::Queen,
                    ) is Ok));
                },
                None => {},
            }
        }
    }
    false
}

/// Search sanity: when exactly one move is open to the side to move, any
/// legal choice the search returns is that move.
pub proof fn lemma_unique_candidate_is_chosen(
    m: BoardModel,
    chosen_from: Square,
    chosen_to: Square,
    only_from: Square,
    only_to: Square,
)
    requires
        candidate_legal(m, chosen_from, chosen_to),
        forall|f: Square, t: Square| #[trigger]
            candidate_legal(m, f, t) ==> f == only_from && t == only_to,
    ensures
        chosen_from == only_from,
        chosen_to == only_to,
{
}

/// Any accepted move other than a castling attempt is a move the search can
/// choose: its non-empty route places the destination in the moving piece's
/// geometric move set, which the search enumerates in full.
pub proof fn lemma_accepted_move_is_candidate(m: BoardModel, from: Square, to: Square)
    requires
        crate::chessboard::board_ok(m),
        move_validation(m, from, to, ChessPieceType::Queen) is Ok,
        cell(m, from) matches Some(p) ==> p.color == m.turn && !(p.piece is King
            && crate::piece_type::dist(p.position.col as int, to.col as int) == 2),
    ensures
        candidate_legal(m, from, to),
        has_candidate_move(m),
{
    match cell(m, from) {
        Some(p) => {
            assert(p.position == from) by {
                crate::utilities::lemma_idx_of_injective(p.position, from);
            }
            crate::piece_actions::lemma_route_implies_candidate(p, to);
        },
        None => {},
    }
}


} // verus!
