//! The board: an 8x8 grid of optional pieces, the last ply, and the recorded
//! check; with placement, removal and move application.

use vstd::prelude::*;
use crate::geometry::on_board;
use crate::pieces::{ChessPiece, ChessPieceColour, ChessPieceKind};
use crate::squares::MoveFromTo;
use crate::state::{scan_x, scan_y, BoardState};

verus! {

/// The kind of piece that starts a game in file `x` of a side's home rank.
pub open spec fn home_rank_kind(x: int) -> ChessPieceKind {
    if x == 0 || x == 7 {
        ChessPieceKind::Rook
    } else if x == 1 || x == 6 {
        ChessPieceKind::Knight
    } else if x == 2 || x == 5 {
        ChessPieceKind::Bishop
    } else if x == 3 {
        ChessPieceKind::Queen
    } else {
        ChessPieceKind::King
    }
}

/// What stands on `(x, y)` when a game starts.
pub open spec fn starting_piece(x: int, y: int) -> Option<ChessPiece> {
    if !on_board(x, y) || (2 <= y <= 5) {
        None
    } else {
        Some(
            ChessPiece {
                x: x as u32,
                y: y as u32,
                colour: if y <= 1 {
                    ChessPieceColour::White
                } else {
                    ChessPieceColour::Black
                },
                kind: if y == 1 || y == 6 {
                    ChessPieceKind::Pawn
                } else {
                    home_rank_kind(x)
                },
                has_moved: false,
            },
        )
    }
}

/// A chess board.
#[derive(Debug, Clone, Copy)]
pub struct Board {
    cells: [[Option<ChessPiece>; 8]; 8],
    last_move: Option<MoveFromTo>,
    check: Option<ChessPieceColour>,
}

impl View for Board {
    type V = BoardState;

    closed spec fn view(&self) -> BoardState {
        BoardState {
            pieces: Map::new(
                |k: (int, int)| on_board(k.0, k.1) && self.cells[k.1][k.0] is Some,
                |k: (int, int)| self.cells[k.1][k.0].unwrap(),
            ),
            last_move: self.last_move,
            check: self.check,
        }
    }
}

impl Default for Board {
    /// The board as a game starts.
    fn default() -> (board: Self)
        ensures
            board.wf(),
            forall|x: int, y: int| #[trigger] board@.at(x, y) == starting_piece(x, y),
            board@.last_move is None,
            board@.check is None,
    {
        let mut board = Self::new();
        let mut x: u32 = 0;
        while x < 8
            invariant
                x <= 8,
                board.wf(),
                board@.last_move is None,
                board@.check is None,
                forall|a: int, b: int|
                    #![trigger board@.at(a, b)]
                    board@.at(a, b) == if a < x {
                        starting_piece(a, b)
                    } else {
                        None
                    },
            decreases 8 - x,
        {
            let kind = if x == 0 || x == 7 {
                ChessPieceKind::Rook
            } else if x == 1 || x == 6 {
                ChessPieceKind::Knight
            } else if x == 2 || x == 5 {
                ChessPieceKind::Bishop
            } else if x == 3 {
                ChessPieceKind::Queen
            } else {
                ChessPieceKind::King
            };
            let ghost before = board@;
            board.set(x, 7, ChessPieceColour::Black, kind);
            board.set(x, 6, ChessPieceColour::Black, ChessPieceKind::Pawn);
            board.set(x, 1, ChessPieceColour::White, ChessPieceKind::Pawn);
            board.set(x, 0, ChessPieceColour::White, kind);
            proof {
                assert forall|a: int, b: int| #![trigger board@.at(a, b)] board@.at(a, b) == if a
                    < x + 1 {
                    starting_piece(a, b)
                } else {
                    None
                } by {
                    assert(before.at(a, b) == if a < x {
                        starting_piece(a, b)
                    } else {
                        None
                    });
                }
            }
            x += 1;
        }
        board
    }
}

impl Board {
    /// The board's invariant: that of the position it holds.
    pub open spec fn wf(&self) -> bool {
        self@.wf()
    }

    /// Only squares of the board are ever occupied.
    pub proof fn lemma_occupied_on_board(&self, x: int, y: int)
        requires
            self@.at(x, y) is Some,
        ensures
            on_board(x, y),
    {
    }

    /// An empty board with no last ply and no check recorded.
    pub fn new() -> (board: Self)
        ensures
            board.wf(),
            board@.pieces == Map::<(int, int), ChessPiece>::empty(),
            board@.last_move is None,
            board@.check is None,
    {
        let rank: [Option<ChessPiece>; 8] = [None, None, None, None, None, None, None, None];
        let board = Board {
            cells: [rank, rank, rank, rank, rank, rank, rank, rank],
            last_move: None,
            check: None,
        };
        assert(board@.pieces =~= Map::<(int, int), ChessPiece>::empty());
        board
    }

    /// The piece on `(x, y)`; none off the board.
    pub fn get(&self, x: u32, y: u32) -> (piece: Option<&ChessPiece>)
        ensures
            piece is Some == self@.at(x as int, y as int) is Some,
            piece matches Some(p) ==> self@.at(x as int, y as int) == Some(*p),
    {
        if x < 8 && y < 8 {
            self.cells[y as usize][x as usize].as_ref()
        } else {
            None
        }
    }

    /// The most recent ply, if any.
    pub fn last_move(&self) -> (last: Option<MoveFromTo>)
        ensures
            last == self@.last_move,
    {
        self.last_move
    }

    /// The side recorded as in check, if any.
    pub fn check(&self) -> (side: Option<ChessPieceColour>)
        ensures
            side == self@.check,
    {
        self.check
    }

    /// Puts a piece of `kind` and `colour` that has not moved on `(x, y)`,
    /// replacing whatever stood there.
    pub fn set(&mut self, x: u32, y: u32, colour: ChessPieceColour, kind: ChessPieceKind)
        requires
            old(self).wf(),
            x < 8,
            y < 8,
        ensures
            final(self).wf(),
            final(self)@ == (BoardState {
                pieces: old(self)@.pieces.insert(
                    (x as int, y as int),
                    ChessPiece { x, y, colour, kind, has_moved: false },
                ),
                ..old(self)@
            }),
    {
        self.place(ChessPiece::new(x, y, colour, kind));
    }

    /// Puts `piece` on the square it names as its own, replacing whatever
    /// stood there.
    pub fn place(&mut self, piece: ChessPiece)
        requires
            old(self).wf(),
            piece.x < 8,
            piece.y < 8,
        ensures
            final(self).wf(),
            final(self)@ == (BoardState {
                pieces: old(self)@.pieces.insert((piece.x as int, piece.y as int), piece),
                ..old(self)@
            }),
    {
        self.cells[piece.y as usize][piece.x as usize] = Some(piece);
        proof {
            assert(self@.pieces =~= old(self)@.pieces.insert(
                (piece.x as int, piece.y as int),
                piece,
            ));
            assert forall|a: int, b: int|
                #![trigger self@.at(a, b)]
                self@.at(a, b) is Some implies on_board(a, b) && self@.at(a, b).unwrap().x == a
                && self@.at(a, b).unwrap().y == b by {
                if a != piece.x || b != piece.y {
                    assert(self@.at(a, b) == old(self)@.at(a, b));
                }
            }
        }
    }

    /// Records `last` as the most recent ply.
    pub fn set_last_move(&mut self, last: Option<MoveFromTo>)
        ensures
            final(self)@ == (BoardState { last_move: last, ..old(self)@ }),
            final(self).wf() == old(self).wf(),
    {
        self.last_move = last;
        proof {
            old(self)@.lemma_wf_by_pieces(self@);
        }
    }

    /// Records `side` as in check, or that neither side is.
    pub fn set_check(&mut self, side: Option<ChessPieceColour>)
        ensures
            final(self)@ == (BoardState { check: side, ..old(self)@ }),
            final(self).wf() == old(self).wf(),
    {
        self.check = side;
        proof {
            old(self)@.lemma_wf_by_pieces(self@);
        }
    }

    /// Empties `(x, y)`.
    pub fn delete(&mut self, x: u32, y: u32)
        requires
            old(self).wf(),
            x < 8,
            y < 8,
        ensures
            final(self).wf(),
            final(self)@ == (BoardState {
                pieces: old(self)@.pieces.remove((x as int, y as int)),
                ..old(self)@
            }),
    {
        self.cells[y as usize][x as usize] = None;
        proof {
            assert(self@.pieces =~= old(self)@.pieces.remove((x as int, y as int)));
            assert forall|a: int, b: int|
                #![trigger self@.at(a, b)]
                self@.at(a, b) is Some implies on_board(a, b) && self@.at(a, b).unwrap().x == a
                && self@.at(a, b).unwrap().y == b by {
                assert(self@.at(a, b) == old(self)@.at(a, b));
            }
        }
    }

    /// Takes the piece on `(from_x, from_y)` to `(to_x, to_y)` and marks it
    /// as moved; does nothing where the first square is empty.
    fn relocate(&mut self, from_x: u32, from_y: u32, to_x: u32, to_y: u32)
        requires
            old(self).wf(),
            to_x < 8,
            to_y < 8,
        ensures
            final(self).wf(),
            final(self)@ == old(self)@.relocate(
                from_x as int,
                from_y as int,
                to_x as int,
                to_y as int,
            ),
    {
        let found = match self.get(from_x, from_y) {
            Some(p) => Some(*p),
            None => None,
        };
        if let Some(p) = found {
            self.place(
                ChessPiece { x: to_x, y: to_y, colour: p.colour, kind: p.kind, has_moved: true },
            );
            self.delete(from_x, from_y);
        }
    }

    /// Moves the piece on `(from_x, from_y)` to `(to_x, to_y)`, without
    /// asking whether the rules allow it, and says whether a piece was
    /// there to move.  A king that goes two files along its rank takes the
    /// piece in the corner on that side along; a pawn that captures in
    /// passing removes the pawn it passes.  With no piece on the first
    /// square the board stays as it is.
    pub fn _move(&mut self, from_x: u32, from_y: u32, to_x: u32, to_y: u32) -> (moved: bool)
        requires
            old(self).wf(),
            to_x < 8,
            to_y < 8,
        ensures
            final(self).wf(),
            moved == old(self)@.at(from_x as int, from_y as int) is Some,
            final(self)@ == old(self)@.after_move(
                from_x as int,
                from_y as int,
                to_x as int,
                to_y as int,
            ),
    {
        let piece = match self.get(from_x, from_y) {
            Some(p) => *p,
            None => {
                return false;
            },
        };
        let target_empty = self.get(to_x, to_y).is_none();
        let last = self.last_move;
        self.relocate(from_x, from_y, to_x, to_y);
        match piece.kind {
            ChessPieceKind::King => {
                if from_y == to_y {
                    if to_x > from_x && to_x - from_x == 2 {
                        self.relocate(7, from_y, to_x - 1, from_y);
                    } else if from_x > to_x && from_x - to_x == 2 {
                        self.relocate(0, from_y, to_x + 1, from_y);
                    }
                }
            },
            ChessPieceKind::Pawn => {
                let one_file = (to_x > from_x && to_x - from_x == 1) || (from_x > to_x && from_x
                    - to_x == 1);
                let one_rank = (to_y > from_y && to_y - from_y == 1) || (from_y > to_y && from_y
                    - to_y == 1);
                if one_file && one_rank && target_empty {
                    if let Some(ply) = last {
                        let came_from: i64 = to_y as i64 + piece.colour.forward() as i64;
                        if ply.from.x == to_x && ply.from.y as i64 == came_from && ply.to.x == to_x
                            && ply.to.y == from_y {
                            self.delete(to_x, from_y);
                        }
                    }
                }
            },
            _ => {},
        }
        self.set_last_move(Some(MoveFromTo::new(from_x, from_y, to_x, to_y)));
        true
    }

    /// All 64 cells, rank 7 first, each rank from file 0 to file 7.
    pub fn iter(&self) -> (cells: Vec<Option<ChessPiece>>)
        ensures
            cells.len() == 64,
            forall|i: int| 0 <= i < 64 ==> #[trigger] cells[i] == self@.at(scan_x(i), scan_y(i)),
    {
        let mut cells: Vec<Option<ChessPiece>> = Vec::new();
        let mut i: usize = 0;
        while i < 64
            invariant
                i <= 64,
                cells.len() == i,
                forall|j: int| 0 <= j < i ==> #[trigger] cells[j] == self@.at(scan_x(j), scan_y(j)),
            decreases 64 - i,
        {
            cells.push(self.cells[7 - i / 8][i % 8]);
            i += 1;
        }
        cells
    }
}

} // verus!
