//! The piece model: colour, kind and the per-piece state a board cell holds.

use vstd::prelude::*;

verus! {

/// The side a piece belongs to.
#[derive(PartialEq, Eq, Structural, Debug, Copy, Clone, Hash)]
pub enum ChessPieceColour {
    White,
    Black,
}

impl ChessPieceColour {
    /// The other side.
    pub open spec fn spec_opposite(self) -> ChessPieceColour {
        match self {
            ChessPieceColour::White => ChessPieceColour::Black,
            ChessPieceColour::Black => ChessPieceColour::White,
        }
    }

    /// The rank direction in which this side's pawns advance: `1` for White,
    /// `-1` for Black.
    pub open spec fn spec_forward(self) -> int {
        match self {
            ChessPieceColour::White => 1,
            ChessPieceColour::Black => -1,
        }
    }

    /// The other side.
    #[verifier::when_used_as_spec(spec_opposite)]
    pub fn opposite(self) -> (other: ChessPieceColour)
        ensures
            other == self.spec_opposite(),
    {
        match self {
            ChessPieceColour::White => ChessPieceColour::Black,
            ChessPieceColour::Black => ChessPieceColour::White,
        }
    }

    /// The rank direction in which this side's pawns advance.
    pub fn forward(self) -> (step: i32)
        ensures
            step == self.spec_forward(),
    {
        match self {
            ChessPieceColour::White => 1,
            ChessPieceColour::Black => -1,
        }
    }
}

/// The kind of a piece, which decides how it moves.
#[derive(PartialEq, Eq, Structural, Debug, Copy, Clone, Hash)]
pub enum ChessPieceKind {
    Pawn,
    Knight,
    Rook,
    Bishop,
    Queen,
    King,
}

impl ChessPieceKind {
    /// Rooks, bishops and queens slide along lines until something blocks them.
    pub open spec fn spec_is_slider(self) -> bool {
        self == ChessPieceKind::Rook || self == ChessPieceKind::Bishop || self
            == ChessPieceKind::Queen
    }

    /// Whether pieces of this kind slide along lines.
    #[verifier::when_used_as_spec(spec_is_slider)]
    pub fn is_slider(self) -> (slides: bool)
        ensures
            slides == self.spec_is_slider(),
    {
        match self {
            ChessPieceKind::Rook | ChessPieceKind::Bishop | ChessPieceKind::Queen => true,
            _ => false,
        }
    }
}

/// A piece together with the square it stands on and whether it has ever
/// been relocated.
#[derive(PartialEq, Eq, Structural, Debug, Copy, Clone, Hash)]
pub struct ChessPiece {
    pub x: u32,
    pub y: u32,
    pub colour: ChessPieceColour,
    pub kind: ChessPieceKind,
    pub has_moved: bool,
}

impl ChessPiece {
    /// A piece that has not moved yet, standing on `(x, y)`.
    pub fn new(x: u32, y: u32, colour: ChessPieceColour, kind: ChessPieceKind) -> (piece: Self)
        ensures
            piece == (ChessPiece { x, y, colour, kind, has_moved: false }),
    {
        Self { x, y, colour, kind, has_moved: false }
    }
}

} // verus!
