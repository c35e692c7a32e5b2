//! Candidate moves: where each kind of piece may go by its own geometry and
//! the occupancy of the board, before check and pins are considered.

use vstd::prelude::*;
use crate::board::Board;
use crate::geometry::{between, on_board, on_ray};
use crate::pieces::{ChessPieceColour, ChessPieceKind};
use crate::sets::{MoveSet, SquareSet};
use crate::squares::{BoardPos, Move};
use crate::state::BoardState;

verus! {

impl Board {
    /// The move that a piece of `colour` makes by going to `(x, y)`: none off
    /// the board or onto a piece of its own side, a capture onto an enemy, a
    /// quiet move onto an empty square.
    pub fn can_do_move(&self, x: i32, y: i32, colour: &ChessPieceColour) -> (mv: Option<Move>)
        ensures
            mv == self@.can_do_move(x as int, y as int, *colour),
    {
        if !(0 <= x && x < 8) || !(0 <= y && y < 8) {
            return None;
        }
        match self.get(x as u32, y as u32) {
            Some(other_piece) => {
                if other_piece.colour != *colour {
                    Some(Move { x: x as u32, y: y as u32, takes: true })
                } else {
                    None
                }
            },
            None => Some(Move { x: x as u32, y: y as u32, takes: false }),
        }
    }

    /// Adds to `moves` the move, if any, to the square `(dx, dy)` away from
    /// `(x, y)`.
    fn add_step(
        &self,
        moves: &mut MoveSet,
        x: u32,
        y: u32,
        dx: i32,
        dy: i32,
        colour: &ChessPieceColour,
    )
        requires
            x < 8,
            y < 8,
            -2 <= dx <= 2,
            -2 <= dy <= 2,
        ensures
            final(moves)@ == old(moves)@.union(self@.step_moves(x + dx, y + dy, *colour)),
    {
        if let Some(mv) = self.can_do_move(x as i32 + dx, y as i32 + dy, colour) {
            moves.insert(mv);
        }
        assert(moves@ =~= old(moves)@.union(self@.step_moves(x + dx, y + dy, *colour)));
    }

    /// Adds to `moves` the moves along the ray from `(x, y)` in direction
    /// `(dx, dy)`.
    fn move_ray(
        &self,
        x: u32,
        y: u32,
        dx: i32,
        dy: i32,
        colour: &ChessPieceColour,
        moves: &mut MoveSet,
    )
        requires
            x < 8,
            y < 8,
            -1 <= dx <= 1,
            -1 <= dy <= 1,
            dx != 0 || dy != 0,
        ensures
            final(moves)@ == old(moves)@.union(
                self@.ray_moves(x as int, y as int, dx as int, dy as int, *colour),
            ),
    {
        let mut cx: i32 = x as i32 + dx;
        let mut cy: i32 = y as i32 + dy;
        let mut stopped = false;
        while !stopped && 0 <= cx && cx < 8 && 0 <= cy && cy < 8
            invariant
                x < 8,
                y < 8,
                -1 <= dx <= 1,
                -1 <= dy <= 1,
                dx != 0 || dy != 0,
                -1 <= cx <= 8,
                -1 <= cy <= 8,
                on_ray(x as int, y as int, dx as int, dy as int, cx as int, cy as int),
                self@.clear_between(x as int, y as int, cx as int, cy as int),
                stopped ==> on_board(cx as int, cy as int) && self@.at(cx as int, cy as int)
                    is Some,
                forall|m: Move|
                    moves@.contains(m) <==> old(moves)@.contains(m) || (on_ray(
                        x as int,
                        y as int,
                        dx as int,
                        dy as int,
                        m.x as int,
                        m.y as int,
                    ) && self@.playable(*colour, m) && (between(
                        x as int,
                        y as int,
                        m.x as int,
                        m.y as int,
                        cx as int,
                        cy as int,
                    ) || (stopped && m.x == cx && m.y == cy))),
            decreases
                    (if stopped {
                        0int
                    } else {
                        1int
                    }),
                    (if dx > 0 {
                        8 - cx
                    } else if dx < 0 {
                        cx + 1
                    } else if dy > 0 {
                        8 - cy
                    } else {
                        cy + 1
                    }),
        {
            match self.can_do_move(cx, cy, colour) {
                None => {
                    stopped = true;
                },
                Some(mv) => {
                    moves.insert(mv);
                    if mv.takes {
                        stopped = true;
                    } else {
                        proof {
                            assert forall|sx: int, sy: int| #[trigger]
                                between(
                                    x as int,
                                    y as int,
                                    sx,
                                    sy,
                                    cx + dx,
                                    cy + dy,
                                ) implies self@.at(sx, sy) is None by {
                                if sx != cx || sy != cy {
                                    assert(between(
                                        x as int,
                                        y as int,
                                        sx,
                                        sy,
                                        cx as int,
                                        cy as int,
                                    ));
                                }
                            }
                        }
                        cx = cx + dx;
                        cy = cy + dy;
                    }
                },
            }
        }
        proof {
            let ax = x as int;
            let ay = y as int;
            assert forall|m: Move|
                moves@.contains(m) <==> old(moves)@.union(
                    self@.ray_moves(ax, ay, dx as int, dy as int, *colour),
                ).contains(m) by {
                let px = m.x as int;
                let py = m.y as int;
                if on_ray(ax, ay, dx as int, dy as int, px, py) && self@.playable(*colour, m) {
                    if between(ax, ay, px, py, cx as int, cy as int) {
                        assert forall|sx: int, sy: int| #[trigger]
                            between(ax, ay, sx, sy, px, py) implies self@.at(sx, sy) is None by {
                            assert(between(ax, ay, sx, sy, cx as int, cy as int));
                        }
                    } else if px == cx && py == cy {
                    } else {
                        assert(between(ax, ay, cx as int, cy as int, px, py));
                    }
                }
            }
            assert(moves@ =~= old(moves)@.union(
                self@.ray_moves(ax, ay, dx as int, dy as int, *colour),
            ));
        }
    }

    /// Adds to `moves` what a pawn of `colour` on `(x, y)` may do in the file
    /// `dx` beside its own: capture the enemy diagonally ahead, or capture in
    /// passing the pawn that has just advanced two ranks to stand beside it.
    fn pawn_diagonal(&self, moves: &mut MoveSet, x: u32, y: u32, dx: i32, colour: &ChessPieceColour)
        requires
            x < 8,
            y < 8,
            dx == 1 || dx == -1,
        ensures
            final(moves)@ == old(moves)@.union(
                self@.pawn_diagonal_moves(x as int, y as int, dx as int, *colour),
            ),
    {
        let f = colour.forward();
        let side: i32 = x as i32 + dx;
        let ahead: i32 = y as i32 + f;
        if let Some(mv) = self.can_do_move(side, ahead, colour) {
            if mv.takes {
                moves.insert(mv);
            } else if let Some(last) = self.last_move() {
                if last.from.x as i64 == side as i64 && last.from.y as i64 == (ahead + f) as i64
                    && last.to.x as i64 == side as i64 && last.to.y == y {
                    if let Some(piece) = self.get(side as u32, y) {
                        if piece.kind == ChessPieceKind::Pawn {
                            moves.insert(mv);
                        }
                    }
                }
            }
        }
        assert(moves@ =~= old(moves)@.union(
            self@.pawn_diagonal_moves(x as int, y as int, dx as int, *colour),
        ));
    }

    /// The candidate moves of a pawn of `colour` on `(x, y)`.
    pub fn get_pawn_moves(
        &self,
        x: u32,
        y: u32,
        colour: &ChessPieceColour,
        has_moved: bool,
    ) -> (moves: MoveSet)
        requires
            x < 8,
            y < 8,
        ensures
            moves@ == self@.pawn_moves(x as int, y as int, *colour, has_moved),
    {
        let mut moves = MoveSet::new();
        let f = colour.forward();
        let ahead: i32 = y as i32 + f;
        if let Some(mv) = self.can_do_move(x as i32, ahead, colour) {
            if !mv.takes {
                moves.insert(mv);
                if !has_moved {
                    if let Some(mv) = self.can_do_move(x as i32, ahead + f, colour) {
                        if !mv.takes {
                            moves.insert(mv);
                        }
                    }
                }
            }
        }
        self.pawn_diagonal(&mut moves, x, y, -1, colour);
        self.pawn_diagonal(&mut moves, x, y, 1, colour);
        assert(moves@ =~= self@.pawn_moves(x as int, y as int, *colour, has_moved));
        moves
    }

    /// The candidate moves of a knight of `colour` on `(x, y)`.
    pub fn get_knight_moves(&self, x: u32, y: u32, colour: &ChessPieceColour) -> (moves: MoveSet)
        requires
            x < 8,
            y < 8,
        ensures
            moves@ == self@.knight_moves(x as int, y as int, *colour),
    {
        let mut moves = MoveSet::new();
        self.add_step(&mut moves, x, y, 1, 2, colour);
        self.add_step(&mut moves, x, y, 2, 1, colour);
        self.add_step(&mut moves, x, y, -1, 2, colour);
        self.add_step(&mut moves, x, y, -2, 1, colour);
        self.add_step(&mut moves, x, y, 1, -2, colour);
        self.add_step(&mut moves, x, y, 2, -1, colour);
        self.add_step(&mut moves, x, y, -1, -2, colour);
        self.add_step(&mut moves, x, y, -2, -1, colour);
        assert(moves@ =~= self@.knight_moves(x as int, y as int, *colour));
        moves
    }

    /// The candidate moves of a rook of `colour` on `(x, y)`.
    pub fn get_rook_moves(&self, x: u32, y: u32, colour: &ChessPieceColour) -> (moves: MoveSet)
        requires
            x < 8,
            y < 8,
        ensures
            moves@ == self@.rook_moves(x as int, y as int, *colour),
    {
        let mut moves = MoveSet::new();
        self.move_ray(x, y, -1, 0, colour, &mut moves);
        self.move_ray(x, y, 1, 0, colour, &mut moves);
        self.move_ray(x, y, 0, -1, colour, &mut moves);
        self.move_ray(x, y, 0, 1, colour, &mut moves);
        assert(moves@ =~= self@.rook_moves(x as int, y as int, *colour));
        moves
    }

    /// The candidate moves of a bishop of `colour` on `(x, y)`.
    pub fn get_bishop_moves(&self, x: u32, y: u32, colour: &ChessPieceColour) -> (moves: MoveSet)
        requires
            x < 8,
            y < 8,
        ensures
            moves@ == self@.bishop_moves(x as int, y as int, *colour),
    {
        let mut moves = MoveSet::new();
        self.move_ray(x, y, 1, 1, colour, &mut moves);
        self.move_ray(x, y, 1, -1, colour, &mut moves);
        self.move_ray(x, y, -1, 1, colour, &mut moves);
        self.move_ray(x, y, -1, -1, colour, &mut moves);
        assert(moves@ =~= self@.bishop_moves(x as int, y as int, *colour));
        moves
    }

    /// The candidate moves of a queen of `colour` on `(x, y)`.
    pub fn get_queen_moves(&self, x: u32, y: u32, colour: &ChessPieceColour) -> (moves: MoveSet)
        requires
            x < 8,
            y < 8,
        ensures
            moves@ == self@.queen_moves(x as int, y as int, *colour),
    {
        self.get_rook_moves(x, y, colour).union(&self.get_bishop_moves(x, y, colour))
    }
    /// Whether a king of `colour` on `(x, y)` that has not moved may castle
    /// towards side `d`, given the squares that the other side threatens.
    fn can_castle(
        &self,
        x: u32,
        y: u32,
        colour: &ChessPieceColour,
        d: i32,
        threats: &SquareSet,
    ) -> (ok: bool)
        requires
            x < 8,
            y < 8,
            d == 1 || d == -1,
            threats@ == self@.threat_set(colour.spec_opposite()),
        ensures
            ok == self@.may_castle(x as int, y as int, *colour, false, d as int),
    {
        let corner: u32 = if d > 0 {
            7
        } else {
            0
        };
        let short_of_corner = if d > 0 {
            x + 2 < 7
        } else {
            x > 2
        };
        if !short_of_corner || threats.contains(&BoardPos { x, y }) {
            return false;
        }
        let rook_ready = match self.get(corner, y) {
            Some(piece) => piece.kind == ChessPieceKind::Rook && piece.colour == *colour
                && !piece.has_moved,
            None => false,
        };
        if !rook_ready {
            return false;
        }
        let mut sx: i32 = x as i32 + d;
        while sx != corner as i32
            invariant
                x < 8,
                y < 8,
                d == 1 || d == -1,
                corner == BoardState::corner_file(d as int),
                threats@ == self@.threat_set(colour.spec_opposite()),
                BoardState::towards_corner(x as int, d as int, sx as int) || sx == corner,
                forall|s: int|
                    #![trigger self@.at(s, y as int)]
                    BoardState::towards_corner(x as int, d as int, s) && (if d > 0 {
                        s < sx
                    } else {
                        s > sx
                    }) ==> self@.at(s, y as int) is None && !self@.threatened_by(
                        colour.spec_opposite(),
                        s,
                        y as int,
                    ),
            decreases
                    (if d > 0 {
                        7 - sx
                    } else {
                        sx as int
                    }),
        {
            let square = BoardPos { x: sx as u32, y };
            if self.get(sx as u32, y).is_some() || threats.contains(&square) {
                proof {
                    assert(self@.threat_set(colour.spec_opposite()).contains(square)
                        == self@.threatened_by(colour.spec_opposite(), sx as int, y as int));
                    assert(BoardState::towards_corner(x as int, d as int, sx as int));
                }
                return false;
            }
            proof {
                assert(self@.threat_set(colour.spec_opposite()).contains(square)
                    == self@.threatened_by(colour.spec_opposite(), sx as int, y as int));
            }
            sx = sx + d;
        }
        proof {
            let king = BoardPos { x, y };
            assert(self@.threat_set(colour.spec_opposite()).contains(king) == self@.threatened_by(
                colour.spec_opposite(),
                x as int,
                y as int,
            ));
        }
        true
    }

    /// The candidate moves of a king of `colour` on `(x, y)`: its steps and
    /// its castling moves, none of them onto a square that the other side
    /// threatens.
    pub fn get_king_moves(
        &self,
        x: u32,
        y: u32,
        colour: &ChessPieceColour,
        has_moved: bool,
    ) -> (moves: MoveSet)
        requires
            x < 8,
            y < 8,
        ensures
            moves@ == self@.king_moves(x as int, y as int, *colour, has_moved),
    {
        let mut steps = MoveSet::new();
        self.add_step(&mut steps, x, y, -1, -1, colour);
        self.add_step(&mut steps, x, y, 0, -1, colour);
        self.add_step(&mut steps, x, y, 1, -1, colour);
        self.add_step(&mut steps, x, y, -1, 0, colour);
        self.add_step(&mut steps, x, y, 1, 0, colour);
        self.add_step(&mut steps, x, y, -1, 1, colour);
        self.add_step(&mut steps, x, y, 0, 1, colour);
        self.add_step(&mut steps, x, y, 1, 1, colour);

        let threats = self.threatened_squares(colour.opposite());
        let mut moves = steps.without_squares(&threats);
        if !has_moved {
            if self.can_castle(x, y, colour, -1, &threats) {
                moves.insert(Move { x: x - 2, y, takes: false });
            }
            if self.can_castle(x, y, colour, 1, &threats) {
                moves.insert(Move { x: x + 2, y, takes: false });
            }
        }
        proof {
            let opp = colour.spec_opposite();
            assert forall|m: Move|
                moves@.contains(m) <==> self@.king_moves(
                    x as int,
                    y as int,
                    *colour,
                    has_moved,
                ).contains(m) by {
                assert(self@.threat_set(opp).contains(m.spec_pos()) == self@.threatened_by(
                    opp,
                    m.x as int,
                    m.y as int,
                ));
                if BoardState::castling_move(x as int, y as int, 1, m) && self@.may_castle(
                    x as int,
                    y as int,
                    *colour,
                    has_moved,
                    1,
                ) {
                    assert(self@.at(x + 2, y as int) is None);
                }
                if BoardState::castling_move(x as int, y as int, -1, m) && self@.may_castle(
                    x as int,
                    y as int,
                    *colour,
                    has_moved,
                    -1,
                ) {
                    assert(self@.at(x - 2, y as int) is None);
                }
            }
            assert(moves@ =~= self@.king_moves(x as int, y as int, *colour, has_moved));
        }
        moves
    }

    /// The candidate moves of the piece on `(x, y)`; none where no piece
    /// stands, which includes every square off the board.
    pub fn get_candidate_moves(&self, x: u32, y: u32) -> (moves: Option<MoveSet>)
        ensures
            moves is Some == self@.at(x as int, y as int) is Some,
            moves matches Some(set) ==> set@ == self@.candidate_moves(x as int, y as int),
    {
        let piece = match self.get(x, y) {
            Some(p) => *p,
            None => {
                return None;
            },
        };
        proof {
            self.lemma_occupied_on_board(x as int, y as int);
        }
        Some(
            match piece.kind {
                ChessPieceKind::Pawn => self.get_pawn_moves(x, y, &piece.colour, piece.has_moved),
                ChessPieceKind::Knight => self.get_knight_moves(x, y, &piece.colour),
                ChessPieceKind::Rook => self.get_rook_moves(x, y, &piece.colour),
                ChessPieceKind::Bishop => self.get_bishop_moves(x, y, &piece.colour),
                ChessPieceKind::Queen => self.get_queen_moves(x, y, &piece.colour),
                ChessPieceKind::King => self.get_king_moves(x, y, &piece.colour, piece.has_moved),
            },
        )
    }
}

} // verus!
