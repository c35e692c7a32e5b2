//! Squares and moves as plain values.

use vstd::prelude::*;

verus! {

/// A square, by file `x` and rank `y`, both counted from 0 at the a1 corner.
#[derive(PartialEq, Eq, Structural, Debug, Copy, Clone, Hash)]
pub struct BoardPos {
    pub x: u32,
    pub y: u32,
}

/// A destination square and whether moving there captures.  The origin is
/// whatever square the move was generated for.
#[derive(PartialEq, Eq, Structural, Debug, Copy, Clone, Hash)]
pub struct Move {
    pub x: u32,
    pub y: u32,
    pub takes: bool,
}

impl Move {
    /// The square this move lands on.
    pub open spec fn spec_pos(&self) -> BoardPos {
        BoardPos { x: self.x, y: self.y }
    }

    /// The square this move lands on.
    #[verifier::when_used_as_spec(spec_pos)]
    pub fn pos(&self) -> (square: BoardPos)
        ensures
            square == self.spec_pos(),
    {
        BoardPos { x: self.x, y: self.y }
    }
}

impl PartialEq<BoardPos> for Move {
    /// Whether this move lands on `other`, whatever its capture flag.
    fn eq(&self, other: &BoardPos) -> (same: bool) {
        self.x == other.x && self.y == other.y
    }
}

impl vstd::std_specs::cmp::PartialEqSpecImpl<BoardPos> for Move {
    open spec fn obeys_eq_spec() -> bool {
        true
    }

    open spec fn eq_spec(&self, other: &BoardPos) -> bool {
        self.x == other.x && self.y == other.y
    }
}

impl PartialEq<Move> for BoardPos {
    /// Whether `other` lands on this square, whatever its capture flag.
    fn eq(&self, other: &Move) -> (same: bool) {
        self.x == other.x && self.y == other.y
    }
}

impl vstd::std_specs::cmp::PartialEqSpecImpl<Move> for BoardPos {
    open spec fn obeys_eq_spec() -> bool {
        true
    }

    open spec fn eq_spec(&self, other: &Move) -> bool {
        self.x == other.x && self.y == other.y
    }
}

/// One ply: the square a piece left and the square it arrived on.
#[derive(PartialEq, Eq, Structural, Debug, Copy, Clone, Hash)]
pub struct MoveFromTo {
    pub from: BoardPos,
    pub to: BoardPos,
}

impl MoveFromTo {
    /// The ply from `(from_x, from_y)` to `(to_x, to_y)`.
    pub fn new(from_x: u32, from_y: u32, to_x: u32, to_y: u32) -> (ply: Self)
        ensures
            ply.from == (BoardPos { x: from_x, y: from_y }),
            ply.to == (BoardPos { x: to_x, y: to_y }),
    {
        Self { from: BoardPos { x: from_x, y: from_y }, to: BoardPos { x: to_x, y: to_y } }
    }
}

} // verus!
