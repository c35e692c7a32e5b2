//! Threatened squares: what each piece attacks, whatever stands there.

use vstd::prelude::*;
use crate::board::Board;
use crate::geometry::{between, on_board, on_ray};
use crate::pieces::{ChessPieceColour, ChessPieceKind};
use crate::sets::SquareSet;
use crate::squares::BoardPos;

verus! {

/// The one square `(tx, ty)` as a set; empty when it lies off the board.
pub open spec fn one_square(tx: int, ty: int) -> Set<BoardPos> {
    Set::new(|p: BoardPos| on_board(tx, ty) && p.x == tx && p.y == ty)
}

/// Adds the square `(dx, dy)` away from `(x, y)` to `set`, if the board has
/// it.
fn add_offset(set: &mut SquareSet, x: u32, y: u32, dx: i32, dy: i32)
    requires
        x < 8,
        y < 8,
        -2 <= dx <= 2,
        -2 <= dy <= 2,
    ensures
        final(set)@ == old(set)@.union(one_square(x + dx, y + dy)),
{
    let tx: i32 = x as i32 + dx;
    let ty: i32 = y as i32 + dy;
    if 0 <= tx && tx < 8 && 0 <= ty && ty < 8 {
        set.insert(BoardPos { x: tx as u32, y: ty as u32 });
    }
    assert(set@ =~= old(set)@.union(one_square(x + dx, y + dy)));
}

impl Board {
    /// Adds to `set` the squares along the ray from `(x, y)` in direction
    /// `(dx, dy)`, up to and including the first occupied one.
    fn threat_ray(&self, x: u32, y: u32, dx: i32, dy: i32, set: &mut SquareSet)
        requires
            x < 8,
            y < 8,
            -1 <= dx <= 1,
            -1 <= dy <= 1,
            dx != 0 || dy != 0,
        ensures
            final(set)@ == old(set)@.union(
                self@.ray_threats(x as int, y as int, dx as int, dy as int),
            ),
    {
        let mut cx: i32 = x as i32 + dx;
        let mut cy: i32 = y as i32 + dy;
        let mut blocked = false;
        while !blocked && 0 <= cx && cx < 8 && 0 <= cy && cy < 8
            invariant
                x < 8,
                y < 8,
                -1 <= dx <= 1,
                -1 <= dy <= 1,
                dx != 0 || dy != 0,
                -1 <= cx <= 8,
                -1 <= cy <= 8,
                on_ray(x as int, y as int, dx as int, dy as int, cx as int, cy as int),
                self@.clear_between(x as int, y as int, cx as int, cy as int),
                blocked ==> on_board(cx as int, cy as int) && self@.at(cx as int, cy as int)
                    is Some,
                forall|p: BoardPos|
                    set@.contains(p) <==> old(set)@.contains(p) || (on_ray(
                        x as int,
                        y as int,
                        dx as int,
                        dy as int,
                        p.x as int,
                        p.y as int,
                    ) && (between(x as int, y as int, p.x as int, p.y as int, cx as int, cy as int)
                        || (blocked && p.x == cx && p.y == cy))),
            decreases
                    (if blocked {
                        0int
                    } else {
                        1int
                    }),
                    (if dx > 0 {
                        8 - cx
                    } else if dx < 0 {
                        cx + 1
                    } else if dy > 0 {
                        8 - cy
                    } else {
                        cy + 1
                    }),
        {
            set.insert(BoardPos { x: cx as u32, y: cy as u32 });
            if self.get(cx as u32, cy as u32).is_some() {
                blocked = true;
            } else {
                proof {
                    assert forall|sx: int, sy: int| #[trigger]
                        between(x as int, y as int, sx, sy, cx + dx, cy + dy) implies self@.at(
                        sx,
                        sy,
                    ) is None by {
                        if sx != cx || sy != cy {
                            assert(between(x as int, y as int, sx, sy, cx as int, cy as int));
                        }
                    }
                }
                cx = cx + dx;
                cy = cy + dy;
            }
        }
        proof {
            let ax = x as int;
            let ay = y as int;
            assert forall|p: BoardPos|
                set@.contains(p) <==> old(set)@.union(
                    self@.ray_threats(ax, ay, dx as int, dy as int),
                ).contains(p) by {
                let px = p.x as int;
                let py = p.y as int;
                if on_ray(ax, ay, dx as int, dy as int, px, py) {
                    if between(ax, ay, px, py, cx as int, cy as int) {
                        assert forall|sx: int, sy: int| #[trigger]
                            between(ax, ay, sx, sy, px, py) implies self@.at(sx, sy) is None by {
                            assert(between(ax, ay, sx, sy, cx as int, cy as int));
                        }
                    } else if px == cx && py == cy {
                    } else {
                        if on_board(px, py) {
                            assert(between(ax, ay, cx as int, cy as int, px, py));
                        }
                    }
                }
            }
            assert(set@ =~= old(set)@.union(self@.ray_threats(ax, ay, dx as int, dy as int)));
        }
    }

    /// The squares a pawn of `colour` on `(x, y)` threatens: the two
    /// diagonally ahead of it, where the board has them.
    pub fn get_pawn_threats(&self, x: u32, y: u32, colour: &ChessPieceColour) -> (threats:
        SquareSet)
        requires
            x < 8,
            y < 8,
        ensures
            threats@ == self@.kind_threats(ChessPieceKind::Pawn, *colour, x as int, y as int),
    {
        let mut threats = SquareSet::new();
        let f = colour.forward();
        add_offset(&mut threats, x, y, -1, f);
        add_offset(&mut threats, x, y, 1, f);
        assert(threats@ =~= self@.kind_threats(ChessPieceKind::Pawn, *colour, x as int, y as int));
        threats
    }

    /// The squares a knight on `(x, y)` threatens.
    pub fn get_knight_threats(&self, x: u32, y: u32) -> (threats: SquareSet)
        requires
            x < 8,
            y < 8,
        ensures
            forall|colour: ChessPieceColour|
                threats@ == #[trigger] self@.kind_threats(
                    ChessPieceKind::Knight,
                    colour,
                    x as int,
                    y as int,
                ),
    {
        let mut threats = SquareSet::new();
        add_offset(&mut threats, x, y, 1, 2);
        add_offset(&mut threats, x, y, 2, 1);
        add_offset(&mut threats, x, y, -1, 2);
        add_offset(&mut threats, x, y, -2, 1);
        add_offset(&mut threats, x, y, 1, -2);
        add_offset(&mut threats, x, y, 2, -1);
        add_offset(&mut threats, x, y, -1, -2);
        add_offset(&mut threats, x, y, -2, -1);
        assert forall|colour: ChessPieceColour|
            threats@ == #[trigger] self@.kind_threats(
                ChessPieceKind::Knight,
                colour,
                x as int,
                y as int,
            ) by {
            assert(threats@ =~= self@.kind_threats(
                ChessPieceKind::Knight,
                colour,
                x as int,
                y as int,
            ));
        }
        threats
    }

    /// The squares a rook on `(x, y)` threatens: along its rank and file, up
    /// to and including the first occupied square each way.
    pub fn get_rook_threats(&self, x: u32, y: u32) -> (threats: SquareSet)
        requires
            x < 8,
            y < 8,
        ensures
            forall|colour: ChessPieceColour|
                threats@ == #[trigger] self@.kind_threats(
                    ChessPieceKind::Rook,
                    colour,
                    x as int,
                    y as int,
                ),
    {
        let mut threats = SquareSet::new();
        self.threat_ray(x, y, -1, 0, &mut threats);
        self.threat_ray(x, y, 1, 0, &mut threats);
        self.threat_ray(x, y, 0, -1, &mut threats);
        self.threat_ray(x, y, 0, 1, &mut threats);
        assert forall|colour: ChessPieceColour|
            threats@ == #[trigger] self@.kind_threats(
                ChessPieceKind::Rook,
                colour,
                x as int,
                y as int,
            ) by {
            assert(threats@ =~= self@.kind_threats(
                ChessPieceKind::Rook,
                colour,
                x as int,
                y as int,
            ));
        }
        threats
    }

    /// The squares a bishop on `(x, y)` threatens: along its diagonals, up to
    /// and including the first occupied square each way.
    pub fn get_bishop_threats(&self, x: u32, y: u32) -> (threats: SquareSet)
        requires
            x < 8,
            y < 8,
        ensures
            forall|colour: ChessPieceColour|
                threats@ == #[trigger] self@.kind_threats(
                    ChessPieceKind::Bishop,
                    colour,
                    x as int,
                    y as int,
                ),
    {
        let mut threats = SquareSet::new();
        self.threat_ray(x, y, 1, 1, &mut threats);
        self.threat_ray(x, y, 1, -1, &mut threats);
        self.threat_ray(x, y, -1, 1, &mut threats);
        self.threat_ray(x, y, -1, -1, &mut threats);
        assert forall|colour: ChessPieceColour|
            threats@ == #[trigger] self@.kind_threats(
                ChessPieceKind::Bishop,
                colour,
                x as int,
                y as int,
            ) by {
            assert(threats@ =~= self@.kind_threats(
                ChessPieceKind::Bishop,
                colour,
                x as int,
                y as int,
            ));
        }
        threats
    }

    /// The squares a queen on `(x, y)` threatens: a rook's and a bishop's
    /// together.
    pub fn get_queen_threats(&self, x: u32, y: u32) -> (threats: SquareSet)
        requires
            x < 8,
            y < 8,
        ensures
            forall|colour: ChessPieceColour|
                threats@ == #[trigger] self@.kind_threats(
                    ChessPieceKind::Queen,
                    colour,
                    x as int,
                    y as int,
                ),
    {
        let threats = self.get_rook_threats(x, y).union(&self.get_bishop_threats(x, y));
        assert forall|colour: ChessPieceColour|
            threats@ == #[trigger] self@.kind_threats(
                ChessPieceKind::Queen,
                colour,
                x as int,
                y as int,
            ) by {
            let rook = self@.kind_threats(ChessPieceKind::Rook, colour, x as int, y as int);
            let bishop = self@.kind_threats(ChessPieceKind::Bishop, colour, x as int, y as int);
            assert(threats@ =~= rook.union(bishop));
            assert(threats@ =~= self@.kind_threats(
                ChessPieceKind::Queen,
                colour,
                x as int,
                y as int,
            ));
        }
        threats
    }

    /// The squares a king on `(x, y)` threatens: its neighbours on the
    /// board.
    pub fn get_king_threats(&self, x: u32, y: u32) -> (threats: SquareSet)
        requires
            x < 8,
            y < 8,
        ensures
            forall|colour: ChessPieceColour|
                threats@ == #[trigger] self@.kind_threats(
                    ChessPieceKind::King,
                    colour,
                    x as int,
                    y as int,
                ),
    {
        let mut threats = SquareSet::new();
        add_offset(&mut threats, x, y, -1, -1);
        add_offset(&mut threats, x, y, 0, -1);
        add_offset(&mut threats, x, y, 1, -1);
        add_offset(&mut threats, x, y, -1, 0);
        add_offset(&mut threats, x, y, 1, 0);
        add_offset(&mut threats, x, y, -1, 1);
        add_offset(&mut threats, x, y, 0, 1);
        add_offset(&mut threats, x, y, 1, 1);
        assert forall|colour: ChessPieceColour|
            threats@ == #[trigger] self@.kind_threats(
                ChessPieceKind::King,
                colour,
                x as int,
                y as int,
            ) by {
            assert(threats@ =~= self@.kind_threats(
                ChessPieceKind::King,
                colour,
                x as int,
                y as int,
            ));
        }
        threats
    }

    /// The squares that the piece on `(x, y)` threatens; none where no piece
    /// stands, which includes every square off the board.
    pub fn get_threatened_tiles(&self, x: u32, y: u32) -> (threats: Option<SquareSet>)
        ensures
            threats is Some == self@.at(x as int, y as int) is Some,
            threats matches Some(set) ==> set@ == self@.threats(x as int, y as int),
    {
        let piece = match self.get(x, y) {
            Some(p) => *p,
            None => {
                return None;
            },
        };
        proof {
            self.lemma_occupied_on_board(x as int, y as int);
        }
        let set = match piece.kind {
            ChessPieceKind::Pawn => self.get_pawn_threats(x, y, &piece.colour),
            ChessPieceKind::Knight => self.get_knight_threats(x, y),
            ChessPieceKind::Rook => self.get_rook_threats(x, y),
            ChessPieceKind::Bishop => self.get_bishop_threats(x, y),
            ChessPieceKind::Queen => self.get_queen_threats(x, y),
            ChessPieceKind::King => self.get_king_threats(x, y),
        };
        assert(set@ == self@.kind_threats(piece.kind, piece.colour, x as int, y as int));
        assert(set@ =~= self@.threats(x as int, y as int));
        Some(set)
    }
    /// The squares that some piece of side `by` threatens.
    pub fn threatened_squares(&self, by: ChessPieceColour) -> (set: SquareSet)
        ensures
            set@ == self@.threat_set(by),
    {
        let mut set = SquareSet::new();
        let mut i: u32 = 0;
        while i < 64
            invariant
                i <= 64,
                forall|p: BoardPos|
                    set@.contains(p) <==> self@.threatened_within(
                        by,
                        i as int,
                        p.x as int,
                        p.y as int,
                    ),
            decreases 64 - i,
        {
            let x: u32 = i % 8;
            let y: u32 = i / 8;
            let ghost before = set@;
            if let Some(piece) = self.get(x, y) {
                if piece.colour == by {
                    if let Some(more) = self.get_threatened_tiles(x, y) {
                        set = set.union(&more);
                    }
                }
            }
            proof {
                assert forall|p: BoardPos|
                    set@.contains(p) <==> self@.threatened_within(
                        by,
                        i + 1,
                        p.x as int,
                        p.y as int,
                    ) by {
                    let tx = p.x as int;
                    let ty = p.y as int;
                    if self@.threatened_within(by, i + 1, tx, ty) {
                        let (sx, sy) = choose|sx: int, sy: int|
                            #![trigger self@.at(sx, sy)]
                            self@.at(sx, sy) matches Some(q) && q.colour == by && on_board(sx, sy)
                                && sy * 8 + sx < i + 1 && self@.attacks(sx, sy, tx, ty);
                        if sy * 8 + sx < i {
                            assert(self@.threatened_within(by, i as int, tx, ty));
                        } else {
                            assert(sx == x && sy == y);
                        }
                    }
                    if before.contains(p) {
                        let (sx, sy) = choose|sx: int, sy: int|
                            #![trigger self@.at(sx, sy)]
                            self@.at(sx, sy) matches Some(q) && q.colour == by && on_board(sx, sy)
                                && sy * 8 + sx < i && self@.attacks(sx, sy, tx, ty);
                        assert(on_board(sx, sy) && sy * 8 + sx < i + 1 && self@.at(sx, sy) is Some);
                    }
                    if set@.contains(p) && !before.contains(p) {
                        assert(on_board(x as int, y as int) && y * 8 + x < i + 1 && self@.at(
                            x as int,
                            y as int,
                        ) is Some);
                    }
                }
            }
            i += 1;
        }
        proof {
            assert forall|p: BoardPos|
                set@.contains(p) <==> self@.threat_set(by).contains(p) by {
                let tx = p.x as int;
                let ty = p.y as int;
                if self@.threatened_by(by, tx, ty) {
                    let (sx, sy) = choose|sx: int, sy: int|
                        #![trigger self@.at(sx, sy)]
                        self@.at(sx, sy) matches Some(q) && q.colour == by && self@.attacks(
                            sx,
                            sy,
                            tx,
                            ty,
                        );
                    self.lemma_occupied_on_board(sx, sy);
                    assert(on_board(sx, sy) && sy * 8 + sx < 64 && self@.at(sx, sy) is Some);
                }
                if self@.threatened_within(by, 64, tx, ty) {
                    let (sx, sy) = choose|sx: int, sy: int|
                        #![trigger self@.at(sx, sy)]
                        self@.at(sx, sy) matches Some(q) && q.colour == by && on_board(sx, sy)
                            && sy * 8 + sx < 64 && self@.attacks(sx, sy, tx, ty);
                    assert(self@.at(sx, sy) is Some);
                }
            }
            assert(set@ =~= self@.threat_set(by));
        }
        set
    }
}

} // verus!
