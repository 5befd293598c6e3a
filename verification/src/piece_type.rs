//! Core value types of the engine: squares, piece kinds, colors, pieces,
//! and the closed set of move outcomes.

use vstd::prelude::*;
use vstd::string::StringExecFns;

verus! {

/// A board coordinate. `row` 0 is Black's back rank, `row` 7 is White's;
/// both axes run over `[0, 7]`.
#[derive(Clone, Copy, PartialEq, Eq, Structural, Debug)]
pub struct Square {
    pub row: usize,
    pub col: usize,
}

/// The six piece kinds of the game.
#[derive(Clone, Copy, PartialEq, Eq, Structural, Debug)]
pub enum ChessPieceType {
    King,
    Rook,
    Bishop,
    Queen,
    Knight,
    Pawn,
}

/// The two sides. White moves toward row 0, Black toward row 7.
#[derive(Clone, Copy, PartialEq, Eq, Structural, Debug)]
pub enum ChessPieceColor {
    White,
    Black,
}

/// A piece on the board. `before_position` is set the first time the piece
/// moves and is never cleared; castling eligibility consults it as a
/// "has this piece ever moved" flag.
#[derive(Clone, Copy, PartialEq, Eq, Structural, Debug)]
pub struct ChessPiece {
    pub piece: ChessPieceType,
    pub color: ChessPieceColor,
    pub position: Square,
    pub before_position: Option<Square>,
}

/// Every outcome a move request can have: three acceptance tags and one tag
/// per rejection reason.
#[derive(Clone, Copy, PartialEq, Eq, Structural, Debug)]
pub enum Message {
    Success,
    Check,
    CheckMate,
    PieceNotYourColor,
    CannotMoveToOccupiedSameColor,
    CannotCaptureKing,
    CannotMovePieceToPosition,
    PieceBlockingTheWay,
    CannotLeaveKingInCheck,
    NoPieceInStartingPosition,
    CannotCastle,
}

/// True on the squares of the 8x8 board.
pub open spec fn in_board(s: Square) -> bool {
    s.row < 8 && s.col < 8
}

/// Row-major index of a square in a flat 64-cell grid.
pub open spec fn idx_of(s: Square) -> int {
    s.row * 8 + s.col
}

/// Absolute difference of two coordinates.
pub open spec fn dist(a: int, b: int) -> int {
    if a >= b {
        a - b
    } else {
        b - a
    }
}

/// The opposite side.
pub open spec fn other_color(c: ChessPieceColor) -> ChessPieceColor {
    match c {
        ChessPieceColor::White => ChessPieceColor::Black,
        ChessPieceColor::Black => ChessPieceColor::White,
    }
}

/// The fixed display text carried by each outcome tag. The game speaks
/// Spanish: every description is a fixed Spanish sentence, never built ad
/// hoc.
pub open spec fn message_text(m: Message) -> Seq<char> {
    match m {
        Message::Success => "Movimiento realizado"@,
        Message::Check => "Jaque!"@,
        Message::CheckMate => "Jaque Mate"@,
        Message::PieceNotYourColor => "La pieza no es de tu color"@,
        Message::CannotMoveToOccupiedSameColor => "No puedes mover una pieza a una posici\u{f3}n ocupada por una pieza del mismo color"@,
        Message::CannotCaptureKing => "No puedes capturar al rey"@,
        Message::CannotMovePieceToPosition => "No puedes mover la pieza a esa posici\u{f3}n"@,
        Message::PieceBlockingTheWay => "Hay una pieza en el camino"@,
        Message::CannotLeaveKingInCheck => "No puedes dejar al rey en jaque"@,
        Message::NoPieceInStartingPosition => "No hay una pieza en la posici\u{f3}n de inicio"@,
        Message::CannotCastle => "No puedes realizar enroque"@,
    }
}

impl Message {
    /// The human-readable description of this outcome, for display by the
    /// surrounding program.
    pub fn get_message(&self) -> (r: String)
        ensures
            r@ == message_text(*self),
    {
        match self {
            Message::Success => String::from_str("Movimiento realizado"),
            Message::Check => String::from_str("Jaque!"),
            Message::CheckMate => String::from_str("Jaque Mate"),
            Message::PieceNotYourColor => String::from_str("La pieza no es de tu color"),
            Message::CannotMoveToOccupiedSameColor => String::from_str(
                "No puedes mover una pieza a una posici\u{f3}n ocupada por una pieza del mismo color",
            ),
            Message::CannotCaptureKing => String::from_str("No puedes capturar al rey"),
            Message::CannotMovePieceToPosition => String::from_str(
                "No puedes mover la pieza a esa posici\u{f3}n",
            ),
            Message::PieceBlockingTheWay => String::from_str("Hay una pieza en el camino"),
            Message::CannotLeaveKingInCheck => String::from_str(
                "No puedes dejar al rey en jaque",
            ),
            Message::NoPieceInStartingPosition => String::from_str(
                "No hay una pieza en la posici\u{f3}n de inicio",
            ),
            Message::CannotCastle => String::from_str("No puedes realizar enroque"),
        }
    }
}

/// The glyph of a piece for terminal display: the color's ANSI escape, the
/// Spanish initial of the kind (R rey, T torre, A alfil, D dama, C caballo,
/// P pe\u{f3}n), and the reset escape. Bright white marks White, bright black
/// marks Black.
pub open spec fn piece_glyph(kind: ChessPieceType, color: ChessPieceColor) -> Seq<char> {
    match color {
        ChessPieceColor::White => match kind {
            ChessPieceType::King => "\u{1b}[97mR\u{1b}[0m"@,
            ChessPieceType::Rook => "\u{1b}[97mT\u{1b}[0m"@,
            ChessPieceType::Bishop => "\u{1b}[97mA\u{1b}[0m"@,
            ChessPieceType::Queen => "\u{1b}[97mD\u{1b}[0m"@,
            ChessPieceType::Knight => "\u{1b}[97mC\u{1b}[0m"@,
            ChessPieceType::Pawn => "\u{1b}[97mP\u{1b}[0m"@,
        },
        ChessPieceColor::Black => match kind {
            ChessPieceType::King => "\u{1b}[90mR\u{1b}[0m"@,
            ChessPieceType::Rook => "\u{1b}[90mT\u{1b}[0m"@,
            ChessPieceType::Bishop => "\u{1b}[90mA\u{1b}[0m"@,
            ChessPieceType::Queen => "\u{1b}[90mD\u{1b}[0m"@,
            ChessPieceType::Knight => "\u{1b}[90mC\u{1b}[0m"@,
            ChessPieceType::Pawn => "\u{1b}[90mP\u{1b}[0m"@,
        },
    }
}

impl ChessPiece {
    /// The colored glyph used when the board is rendered; it depends on the
    /// kind and the color alone.
    pub fn to_char(&self) -> (r: String)
        ensures
            r@ == piece_glyph(self.piece, self.color),
    {
        match self.color {
            ChessPieceColor::White => match self.piece {
                ChessPieceType::King => String::from_str("\u{1b}[97mR\u{1b}[0m"),
                ChessPieceType::Rook => String::from_str("\u{1b}[97mT\u{1b}[0m"),
                ChessPieceType::Bishop => String::from_str("\u{1b}[97mA\u{1b}[0m"),
                ChessPieceType::Queen => String::from_str("\u{1b}[97mD\u{1b}[0m"),
                ChessPieceType::Knight => String::from_str("\u{1b}[97mC\u{1b}[0m"),
                ChessPieceType::Pawn => String::from_str("\u{1b}[97mP\u{1b}[0m"),
            },
            ChessPieceColor::Black => match self.piece {
                ChessPieceType::King => String::from_str("\u{1b}[90mR\u{1b}[0m"),
                ChessPieceType::Rook => String::from_str("\u{1b}[90mT\u{1b}[0m"),
                ChessPieceType::Bishop => String::from_str("\u{1b}[90mA\u{1b}[0m"),
                ChessPieceType::Queen => String::from_str("\u{1b}[90mD\u{1b}[0m"),
                ChessPieceType::Knight => String::from_str("\u{1b}[90mC\u{1b}[0m"),
                ChessPieceType::Pawn => String::from_str("\u{1b}[90mP\u{1b}[0m"),
            },
        }
    }
}

} // verus!
