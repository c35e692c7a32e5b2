//! The mathematical model of a position: which piece stands where, the last
//! ply, and the recorded check; and, over that model, what each piece
//! threatens, which moves it may make, and what a move does.

use vstd::prelude::*;
use crate::geometry::{
    between, bishop_line, king_step, knight_jump, on_board, on_ray, queen_line, rook_line,
};
use crate::pieces::{ChessPiece, ChessPieceColour, ChessPieceKind};
use crate::squares::{BoardPos, Move, MoveFromTo};

verus! {

/// The square that the board lists at place `i`: rank 7 first, each rank
/// from file 0 to file 7.
pub open spec fn scan_x(i: int) -> int {
    i % 8
}

/// See `scan_x`.
pub open spec fn scan_y(i: int) -> int {
    7 - i / 8
}

/// A position as a mathematical value.
pub struct BoardState {
    /// The occupied squares, each with the piece on it.
    pub pieces: Map<(int, int), ChessPiece>,
    /// The most recent ply, if any.
    pub last_move: Option<MoveFromTo>,
    /// The side whose king was found in check when the last ply was
    /// committed, if any.
    pub check: Option<ChessPieceColour>,
}

impl BoardState {
    /// The piece on `(x, y)`, if any.
    pub open spec fn at(self, x: int, y: int) -> Option<ChessPiece> {
        if self.pieces.dom().contains((x, y)) {
            Some(self.pieces[(x, y)])
        } else {
            None
        }
    }

    /// Every piece stands on a square of the board and records that square
    /// as its own.
    pub open spec fn wf(self) -> bool {
        forall|x: int, y: int|
            #![trigger self.at(x, y)]
            self.at(x, y) matches Some(p) ==> on_board(x, y) && p.x == x && p.y == y
    }

    /// Whether a position is well formed depends on its pieces alone.
    pub proof fn lemma_wf_by_pieces(self, other: BoardState)
        requires
            self.pieces == other.pieces,
        ensures
            self.wf() == other.wf(),
    {
        assert forall|x: int, y: int| self.at(x, y) == other.at(x, y) by {}
        if self.wf() {
            assert forall|x: int, y: int|
                #![trigger other.at(x, y)]
                other.at(x, y) is Some implies on_board(x, y) && other.at(x, y).unwrap().x == x
                && other.at(x, y).unwrap().y == y by {
                assert(self.at(x, y) == other.at(x, y));
            }
        }
        if other.wf() {
            assert forall|x: int, y: int|
                #![trigger self.at(x, y)]
                self.at(x, y) is Some implies on_board(x, y) && self.at(x, y).unwrap().x == x
                && self.at(x, y).unwrap().y == y by {
                assert(self.at(x, y) == other.at(x, y));
            }
        }
    }

    /// `(x, y)` is a square of the board with nothing on it.
    pub open spec fn empty_at(self, x: int, y: int) -> bool {
        on_board(x, y) && self.at(x, y) is None
    }

    /// The move that a piece of `colour` makes by going to `(x, y)`: none off
    /// the board or onto a piece of its own side, a capture onto a piece of
    /// the other side, a quiet move onto an empty square.
    pub open spec fn can_do_move(self, x: int, y: int, colour: ChessPieceColour) -> Option<Move> {
        if !on_board(x, y) {
            None
        } else {
            match self.at(x, y) {
                Some(other) => if other.colour != colour {
                    Some(Move { x: x as u32, y: y as u32, takes: true })
                } else {
                    None
                },
                None => Some(Move { x: x as u32, y: y as u32, takes: false }),
            }
        }
    }

    /// `m` is the move that a piece of `colour` makes by going to its square.
    pub open spec fn playable(self, colour: ChessPieceColour, m: Move) -> bool {
        self.can_do_move(m.x as int, m.y as int, colour) == Some(m)
    }

    /// Every square strictly between the two is empty.  Vacuous when the two
    /// share no rank, file or diagonal.
    pub open spec fn clear_between(self, ax: int, ay: int, bx: int, by: int) -> bool {
        forall|sx: int, sy: int| #[trigger]
            between(ax, ay, sx, sy, bx, by) ==> self.at(sx, sy) is None
    }

    // ---------------------------------------------------------------
    // Threatened squares

    /// A piece of `kind` and `colour` standing on `(x, y)` threatens
    /// `(tx, ty)`: it could capture there if an enemy stood on it.  What
    /// stands on the target does not matter; a slider's line ends at, and
    /// includes, the first occupied square.
    pub open spec fn kind_attacks(
        self,
        kind: ChessPieceKind,
        colour: ChessPieceColour,
        x: int,
        y: int,
        tx: int,
        ty: int,
    ) -> bool {
        on_board(tx, ty) && match kind {
            ChessPieceKind::Pawn => ty == y + colour.spec_forward() && (tx == x + 1 || tx == x - 1),
            ChessPieceKind::Knight => knight_jump(x, y, tx, ty),
            ChessPieceKind::Rook => rook_line(x, y, tx, ty) && self.clear_between(x, y, tx, ty),
            ChessPieceKind::Bishop => bishop_line(x, y, tx, ty) && self.clear_between(
                x,
                y,
                tx,
                ty,
            ),
            ChessPieceKind::Queen => queen_line(x, y, tx, ty) && self.clear_between(x, y, tx, ty),
            ChessPieceKind::King => king_step(x, y, tx, ty),
        }
    }

    /// The squares of the board along the ray from `(x, y)` in direction
    /// `(dx, dy)`, up to and including the first occupied one.
    pub open spec fn ray_threats(self, x: int, y: int, dx: int, dy: int) -> Set<BoardPos> {
        Set::new(
            |p: BoardPos|
                on_board(p.x as int, p.y as int) && on_ray(x, y, dx, dy, p.x as int, p.y as int)
                    && self.clear_between(x, y, p.x as int, p.y as int),
        )
    }

    /// The piece on `(x, y)` threatens `(tx, ty)`.
    pub open spec fn attacks(self, x: int, y: int, tx: int, ty: int) -> bool {
        self.at(x, y) matches Some(p) && self.kind_attacks(p.kind, p.colour, x, y, tx, ty)
    }

    /// The squares that a piece of `kind` and `colour` on `(x, y)` threatens.
    pub open spec fn kind_threats(
        self,
        kind: ChessPieceKind,
        colour: ChessPieceColour,
        x: int,
        y: int,
    ) -> Set<BoardPos> {
        Set::new(|p: BoardPos| self.kind_attacks(kind, colour, x, y, p.x as int, p.y as int))
    }

    /// The squares that the piece on `(x, y)` threatens.
    pub open spec fn threats(self, x: int, y: int) -> Set<BoardPos> {
        Set::new(|p: BoardPos| self.attacks(x, y, p.x as int, p.y as int))
    }

    /// Some piece of side `by` threatens `(tx, ty)`.
    pub open spec fn threatened_by(self, by: ChessPieceColour, tx: int, ty: int) -> bool {
        exists|sx: int, sy: int|
            #![trigger self.at(sx, sy)]
            self.at(sx, sy) matches Some(p) && p.colour == by && self.attacks(sx, sy, tx, ty)
    }

    /// The squares that some piece of side `by` threatens.
    pub open spec fn threat_set(self, by: ChessPieceColour) -> Set<BoardPos> {
        Set::new(|p: BoardPos| self.threatened_by(by, p.x as int, p.y as int))
    }

    /// Some piece of side `by` on one of the first `n` squares, counted rank
    /// by rank from `(0, 0)`, threatens `(tx, ty)`.
    pub open spec fn threatened_within(
        self,
        by: ChessPieceColour,
        n: int,
        tx: int,
        ty: int,
    ) -> bool {
        exists|sx: int, sy: int|
            #![trigger self.at(sx, sy)]
            self.at(sx, sy) matches Some(p) && p.colour == by && on_board(sx, sy) && sy * 8 + sx
                < n && self.attacks(sx, sy, tx, ty)
    }

    // ---------------------------------------------------------------
    // Candidate moves, by kind

    /// The moves along the ray from `(x, y)` in direction `(dx, dy)` for a
    /// piece of `colour`: onto each empty square before the first occupied
    /// one, and onto that one if an enemy stands on it.
    pub open spec fn ray_moves(
        self,
        x: int,
        y: int,
        dx: int,
        dy: int,
        colour: ChessPieceColour,
    ) -> Set<Move> {
        Set::new(
            |m: Move|
                on_ray(x, y, dx, dy, m.x as int, m.y as int) && self.clear_between(
                    x,
                    y,
                    m.x as int,
                    m.y as int,
                ) && self.playable(colour, m),
        )
    }

    /// The move, if any, that a piece of `colour` makes by going to
    /// `(tx, ty)`, as a set.
    pub open spec fn step_moves(self, tx: int, ty: int, colour: ChessPieceColour) -> Set<Move> {
        Set::new(|m: Move| m.x == tx && m.y == ty && self.playable(colour, m))
    }

    /// A pawn's advance: one square forward onto an empty square, or two
    /// when it has not moved and both squares are empty.
    pub open spec fn pawn_advance(
        self,
        x: int,
        y: int,
        colour: ChessPieceColour,
        has_moved: bool,
        m: Move,
    ) -> bool {
        let f = colour.spec_forward();
        &&& !m.takes
        &&& m.x == x
        &&& self.empty_at(x, y + f)
        &&& m.y == y + f || (m.y == y + 2 * f && !has_moved && self.empty_at(x, y + 2 * f))
    }

    /// A pawn's capture: one square diagonally forward onto an enemy piece.
    pub open spec fn pawn_capture(self, x: int, y: int, colour: ChessPieceColour, m: Move) -> bool {
        &&& m.takes
        &&& m.x == x + 1 || m.x == x - 1
        &&& m.y == y + colour.spec_forward()
        &&& self.playable(colour, m)
    }

    /// The last ply went along file `file`, from rank `from_y` to rank
    /// `to_y`.
    pub open spec fn last_ply_in_file(self, file: int, from_y: int, to_y: int) -> bool {
        self.last_move matches Some(last) && last.from.x == file && last.from.y == from_y
            && last.to.x == file && last.to.y == to_y
    }

    /// A pawn's capture in passing: one square diagonally forward onto an
    /// empty square, when the last ply was a two-rank advance that ended
    /// beside the pawn, in the file it moves into, and a pawn stands there.
    pub open spec fn en_passant(self, x: int, y: int, colour: ChessPieceColour, m: Move) -> bool {
        let f = colour.spec_forward();
        &&& !m.takes
        &&& m.x == x + 1 || m.x == x - 1
        &&& m.y == y + f
        &&& self.empty_at(m.x as int, m.y as int)
        &&& self.last_ply_in_file(m.x as int, y + 2 * f, y)
        &&& self.at(m.x as int, y) matches Some(p) && p.kind == ChessPieceKind::Pawn
    }

    /// A pawn's moves into the file `dx` beside its own: its capture there
    /// and its capture in passing there.
    pub open spec fn pawn_diagonal_moves(
        self,
        x: int,
        y: int,
        dx: int,
        colour: ChessPieceColour,
    ) -> Set<Move> {
        Set::new(
            |m: Move|
                m.x == x + dx && (self.pawn_capture(x, y, colour, m) || self.en_passant(
                    x,
                    y,
                    colour,
                    m,
                )),
        )
    }

    /// The candidate moves of a pawn of `colour` on `(x, y)`.
    pub open spec fn pawn_moves(
        self,
        x: int,
        y: int,
        colour: ChessPieceColour,
        has_moved: bool,
    ) -> Set<Move> {
        Set::new(
            |m: Move|
                self.pawn_advance(x, y, colour, has_moved, m) || self.pawn_capture(x, y, colour, m)
                    || self.en_passant(x, y, colour, m),
        )
    }

    /// The candidate moves of a knight of `colour` on `(x, y)`.
    pub open spec fn knight_moves(self, x: int, y: int, colour: ChessPieceColour) -> Set<Move> {
        Set::new(|m: Move| knight_jump(x, y, m.x as int, m.y as int) && self.playable(colour, m))
    }

    /// The candidate moves of a rook of `colour` on `(x, y)`: along each rank
    /// and file up to the first occupied square, which is included as a
    /// capture when an enemy stands on it.
    pub open spec fn rook_moves(self, x: int, y: int, colour: ChessPieceColour) -> Set<Move> {
        Set::new(
            |m: Move|
                rook_line(x, y, m.x as int, m.y as int) && self.clear_between(
                    x,
                    y,
                    m.x as int,
                    m.y as int,
                ) && self.playable(colour, m),
        )
    }

    /// The candidate moves of a bishop of `colour` on `(x, y)`: as a rook's,
    /// along the diagonals.
    pub open spec fn bishop_moves(self, x: int, y: int, colour: ChessPieceColour) -> Set<Move> {
        Set::new(
            |m: Move|
                bishop_line(x, y, m.x as int, m.y as int) && self.clear_between(
                    x,
                    y,
                    m.x as int,
                    m.y as int,
                ) && self.playable(colour, m),
        )
    }

    /// The candidate moves of a queen: a rook's and a bishop's together.
    pub open spec fn queen_moves(self, x: int, y: int, colour: ChessPieceColour) -> Set<Move> {
        self.rook_moves(x, y, colour).union(self.bishop_moves(x, y, colour))
    }

    /// The file of the corner towards which side `d` castles: 7 for a
    /// positive `d`, 0 otherwise.
    pub open spec fn corner_file(d: int) -> int {
        if d > 0 {
            7
        } else {
            0
        }
    }

    /// `sx` is a file strictly between `x` and the corner on side `d`.
    pub open spec fn towards_corner(x: int, d: int, sx: int) -> bool {
        if d > 0 {
            x < sx < 7
        } else {
            0 < sx < x
        }
    }

    /// A king of `colour` on `(x, y)` may castle towards side `d`: it has not
    /// moved; the corner holds a rook of its colour that has not moved; the
    /// square it lands on, two files away, lies short of the corner; every
    /// square between king and rook is empty and not threatened by the other
    /// side; and the king's own square is not threatened.
    pub open spec fn may_castle(
        self,
        x: int,
        y: int,
        colour: ChessPieceColour,
        has_moved: bool,
        d: int,
    ) -> bool {
        &&& !has_moved
        &&& on_board(x, y)
        &&& Self::towards_corner(x, d, if d > 0 {
            x + 2
        } else {
            x - 2
        })
        &&& self.at(Self::corner_file(d), y) matches Some(r) && r.kind == ChessPieceKind::Rook
            && r.colour == colour && !r.has_moved
        &&& forall|sx: int|
            #![trigger self.at(sx, y)]
            Self::towards_corner(x, d, sx) ==> self.at(sx, y) is None && !self.threatened_by(
                colour.spec_opposite(),
                sx,
                y,
            )
        &&& !self.threatened_by(colour.spec_opposite(), x, y)
    }

    /// `m` is the castling move of a king on `(x, y)` towards side `d`.
    pub open spec fn castling_move(x: int, y: int, d: int, m: Move) -> bool {
        !m.takes && m.y == y && m.x == if d > 0 {
            x + 2
        } else {
            x - 2
        }
    }

    /// The candidate moves of a king of `colour` on `(x, y)`: a step to a
    /// neighbouring square or a castling move, in either case onto a square
    /// that no piece of the other side threatens.
    pub open spec fn king_moves(
        self,
        x: int,
        y: int,
        colour: ChessPieceColour,
        has_moved: bool,
    ) -> Set<Move> {
        Set::new(
            |m: Move|
                !self.threatened_by(colour.spec_opposite(), m.x as int, m.y as int) && ((king_step(
                    x,
                    y,
                    m.x as int,
                    m.y as int,
                ) && self.playable(colour, m)) || (Self::castling_move(x, y, 1, m)
                    && self.may_castle(x, y, colour, has_moved, 1)) || (Self::castling_move(
                    x,
                    y,
                    -1,
                    m,
                ) && self.may_castle(x, y, colour, has_moved, -1))),
        )
    }

    /// The candidate moves of the piece on `(x, y)`; none where no piece
    /// stands.
    pub open spec fn candidate_moves(self, x: int, y: int) -> Set<Move> {
        match self.at(x, y) {
            None => Set::empty(),
            Some(p) => match p.kind {
                ChessPieceKind::Pawn => self.pawn_moves(x, y, p.colour, p.has_moved),
                ChessPieceKind::Knight => self.knight_moves(x, y, p.colour),
                ChessPieceKind::Rook => self.rook_moves(x, y, p.colour),
                ChessPieceKind::Bishop => self.bishop_moves(x, y, p.colour),
                ChessPieceKind::Queen => self.queen_moves(x, y, p.colour),
                ChessPieceKind::King => self.king_moves(x, y, p.colour, p.has_moved),
            },
        }
    }

    // ---------------------------------------------------------------
    // Check and pins

    /// The first piece of `kind` and `colour` among the squares listed from
    /// place `i` on, if there is one.
    pub open spec fn find_from(
        self,
        kind: ChessPieceKind,
        colour: ChessPieceColour,
        i: int,
    ) -> Option<ChessPiece>
        decreases 64 - i,
    {
        if i < 0 || i >= 64 {
            None
        } else {
            match self.at(scan_x(i), scan_y(i)) {
                Some(p) if p.kind == kind && p.colour == colour => Some(p),
                _ => self.find_from(kind, colour, i + 1),
            }
        }
    }

    /// The first piece of `kind` and `colour` in the board's listing order.
    pub open spec fn find_piece(self, kind: ChessPieceKind, colour: ChessPieceColour) -> Option<
        ChessPiece,
    > {
        self.find_from(kind, colour, 0)
    }

    /// What `find_from` finds stands on the board as found, at or after
    /// place `i`; and where it finds nothing, no square from place `i` on
    /// holds such a piece.
    pub proof fn lemma_find_from(self, kind: ChessPieceKind, colour: ChessPieceColour, i: int)
        requires
            0 <= i,
        ensures
            self.find_from(kind, colour, i) matches Some(p) ==> p.kind == kind && p.colour == colour
                && exists|j: int|
                #![trigger scan_x(j)]
                i <= j < 64 && self.at(scan_x(j), scan_y(j)) == Some(p),
            self.find_from(kind, colour, i) is None ==> forall|j: int|
                #![trigger scan_x(j)]
                i <= j < 64 ==> !(self.at(scan_x(j), scan_y(j)) matches Some(p) && p.kind == kind
                    && p.colour == colour),
        decreases 64 - i,
    {
        if i < 64 {
            self.lemma_find_from(kind, colour, i + 1);
            match self.at(scan_x(i), scan_y(i)) {
                Some(p) if p.kind == kind && p.colour == colour => {
                    assert(self.at(scan_x(i), scan_y(i)) == Some(p));
                },
                _ => {
                    if let Some(p) = self.find_from(kind, colour, i) {
                        let j = choose|j: int|
                            #![trigger scan_x(j)]
                            i + 1 <= j < 64 && self.at(scan_x(j), scan_y(j)) == Some(p);
                        assert(i <= j < 64 && self.at(scan_x(j), scan_y(j)) == Some(p));
                    } else {
                        assert forall|j: int| #![trigger scan_x(j)] i <= j < 64 implies !(self.at(
                            scan_x(j),
                            scan_y(j),
                        ) matches Some(p) && p.kind == kind && p.colour == colour) by {
                            if j > i {
                            }
                        }
                    }
                },
            }
        }
    }

    /// In a well-formed position, the piece that `find_piece` finds stands
    /// on the square it names as its own; and where it finds nothing, the
    /// board holds no such piece.
    pub proof fn lemma_find_piece(self, kind: ChessPieceKind, colour: ChessPieceColour)
        requires
            self.wf(),
        ensures
            self.find_piece(kind, colour) matches Some(p) ==> p.kind == kind && p.colour == colour
                && on_board(p.x as int, p.y as int) && self.at(p.x as int, p.y as int) == Some(p),
            self.find_piece(kind, colour) is None ==> forall|x: int, y: int|
                #![trigger self.at(x, y)]
                !(self.at(x, y) matches Some(p) && p.kind == kind && p.colour == colour),
    {
        self.lemma_find_from(kind, colour, 0);
        if let Some(p) = self.find_piece(kind, colour) {
            let j = choose|j: int|
                #![trigger scan_x(j)]
                0 <= j < 64 && self.at(scan_x(j), scan_y(j)) == Some(p);
            assert(self.at(scan_x(j), scan_y(j)) is Some);
        } else {
            assert forall|x: int, y: int| #![trigger self.at(x, y)] !(self.at(x, y) matches Some(
                p,
            ) && p.kind == kind && p.colour == colour) by {
                if self.at(x, y) is Some {
                    let j = (7 - y) * 8 + x;
                    assert(scan_x(j) == x && scan_y(j) == y);
                }
            }
        }
    }

    /// `p` is a piece of the other side that threatens the square of the
    /// king of `colour`.
    pub open spec fn is_attacker(self, colour: ChessPieceColour, p: ChessPiece) -> bool {
        &&& self.find_piece(ChessPieceKind::King, colour) matches Some(king) && self.attacks(
            p.x as int,
            p.y as int,
            king.x as int,
            king.y as int,
        )
        &&& self.at(p.x as int, p.y as int) == Some(p)
        &&& p.colour != colour
    }

    /// The king of `colour` stands on a square that the other side threatens.
    pub open spec fn in_check(self, colour: ChessPieceColour) -> bool {
        exists|p: ChessPiece| self.is_attacker(colour, p)
    }

    /// A slider that threatens a square threatens every square on the way
    /// there.
    pub proof fn lemma_slider_threatens_path(
        self,
        ax: int,
        ay: int,
        kx: int,
        ky: int,
        tx: int,
        ty: int,
    )
        requires
            self.at(ax, ay) matches Some(a) && a.kind.spec_is_slider(),
            self.attacks(ax, ay, kx, ky),
            on_board(ax, ay),
            between(kx, ky, tx, ty, ax, ay),
        ensures
            self.attacks(ax, ay, tx, ty),
    {
        assert forall|sx: int, sy: int| #[trigger] between(ax, ay, sx, sy, tx, ty) implies self.at(
            sx,
            sy,
        ) is None by {
            assert(between(ax, ay, sx, sy, kx, ky));
        }
    }

    /// Going to `(tx, ty)` answers every check on the king of `colour`: at
    /// most one piece attacks it, and the move captures that piece or, if it
    /// is a slider, lands strictly between it and the king.
    pub open spec fn resolves_check(self, colour: ChessPieceColour, tx: int, ty: int) -> bool {
        match self.find_piece(ChessPieceKind::King, colour) {
            None => true,
            Some(king) => {
                &&& forall|a: ChessPiece, b: ChessPiece|
                    self.is_attacker(colour, a) && self.is_attacker(colour, b) ==> a == b
                &&& forall|a: ChessPiece| #[trigger]
                    self.is_attacker(colour, a) ==> (tx == a.x && ty == a.y) || (
                    a.kind.spec_is_slider() && between(
                        king.x as int,
                        king.y as int,
                        tx,
                        ty,
                        a.x as int,
                        a.y as int,
                    ))
            },
        }
    }

    /// The slider on `(sx, sy)` pins what stands on `(x, y)` against
    /// `(kx, ky)`: the square lies strictly between the two, the slider
    /// threatens it, and nothing stands between it and `(kx, ky)`.
    pub open spec fn pins(self, kx: int, ky: int, sx: int, sy: int, x: int, y: int) -> bool {
        between(kx, ky, x, y, sx, sy) && self.attacks(sx, sy, x, y) && self.clear_between(
            kx,
            ky,
            x,
            y,
        )
    }

    /// The piece on `(x, y)` is pinned: it is the only piece between its
    /// own king and a slider of the other side, on a line along which that
    /// slider moves.
    pub open spec fn pinned(self, x: int, y: int) -> bool {
        self.at(x, y) matches Some(p) && self.find_piece(
            ChessPieceKind::King,
            p.colour,
        ) matches Some(king) && exists|sx: int, sy: int|
            #![trigger self.at(sx, sy)]
            self.at(sx, sy) matches Some(s) && s.colour != p.colour && s.kind.spec_is_slider()
                && self.pins(king.x as int, king.y as int, sx, sy, x, y)
    }

    /// The legal moves of the piece on `(x, y)`: its candidate moves, none
    /// of them if it is pinned, and, while its side is recorded as in check
    /// and it is not the king, only those that answer the check.
    pub open spec fn legal_moves(self, x: int, y: int) -> Set<Move> {
        Set::new(
            |m: Move|
                self.at(x, y) matches Some(p) && self.candidate_moves(x, y).contains(m)
                    && !self.pinned(x, y) && (self.check == Some(p.colour) && p.kind
                    != ChessPieceKind::King ==> self.resolves_check(
                    p.colour,
                    m.x as int,
                    m.y as int,
                )),
        )
    }

    /// A piece of `kind` and `colour` stands on `(x, y)`.
    pub open spec fn holds(
        self,
        x: int,
        y: int,
        kind: ChessPieceKind,
        colour: ChessPieceColour,
    ) -> bool {
        self.at(x, y) matches Some(p) && p.kind == kind && p.colour == colour
    }

    /// The side of `colour` has no more than one king.
    pub open spec fn at_most_one_king(self, colour: ChessPieceColour) -> bool {
        forall|x1: int, y1: int, x2: int, y2: int|
            #![trigger self.at(x1, y1), self.at(x2, y2)]
            self.holds(x1, y1, ChessPieceKind::King, colour) && self.holds(
                x2,
                y2,
                ChessPieceKind::King,
                colour,
            ) ==> x1 == x2 && y1 == y2
    }

    /// Going from `(x, y)` to `(tx, ty)` is a step straight away from a
    /// slider of the other side that threatens `(x, y)`: the square left
    /// lies between that slider and the square reached.
    pub open spec fn retreats_from_slider(self, x: int, y: int, tx: int, ty: int) -> bool {
        exists|sx: int, sy: int|
            #![trigger self.at(sx, sy)]
            self.at(sx, sy) matches Some(s) && s.kind.spec_is_slider() && (self.at(
                x,
                y,
            ) matches Some(p) && p.colour != s.colour) && self.attacks(sx, sy, x, y) && between(
                sx,
                sy,
                x,
                y,
                tx,
                ty,
            )
    }

    /// A slider of `kind` moves along the line that the two squares share.
    pub open spec fn slides_along(
        kind: ChessPieceKind,
        ax: int,
        ay: int,
        bx: int,
        by: int,
    ) -> bool {
        match kind {
            ChessPieceKind::Rook => rook_line(ax, ay, bx, by),
            ChessPieceKind::Bishop => bishop_line(ax, ay, bx, by),
            ChessPieceKind::Queen => queen_line(ax, ay, bx, by),
            _ => false,
        }
    }

    /// The capture in passing from `(x, y)` to `(tx, ty)` opens a line to
    /// the mover's king: a slider of the other side looks at the king along
    /// a line on which the captured pawn stands, on which the square reached
    /// does not stand, and on which nothing else stands but, possibly, the
    /// capturing pawn.
    pub open spec fn en_passant_exposes(self, x: int, y: int, tx: int, ty: int) -> bool {
        self.at(x, y) matches Some(p) && self.find_piece(
            ChessPieceKind::King,
            p.colour,
        ) matches Some(king) && exists|sx: int, sy: int|
            #![trigger self.at(sx, sy)]
            self.at(sx, sy) matches Some(s) && s.colour != p.colour && Self::slides_along(
                s.kind,
                sx,
                sy,
                king.x as int,
                king.y as int,
            ) && between(sx, sy, tx, y, king.x as int, king.y as int) && !between(
                sx,
                sy,
                tx,
                ty,
                king.x as int,
                king.y as int,
            ) && forall|vx: int, vy: int| #[trigger]
                between(sx, sy, vx, vy, king.x as int, king.y as int) && (vx != x || vy != y)
                    && (vx != tx || vy != y) ==> self.at(vx, vy) is None
    }

    // ---------------------------------------------------------------
    // Applying a move

    /// The piece on `(fx, fy)` taken to `(tx, ty)` and marked as moved,
    /// replacing whatever stood there.  Unchanged where `(fx, fy)` is empty.
    /// Where the two squares are the same, the square ends up empty.
    pub open spec fn relocate(self, fx: int, fy: int, tx: int, ty: int) -> BoardState {
        match self.at(fx, fy) {
            None => self,
            Some(p) => BoardState {
                pieces: self.pieces.insert(
                    (tx, ty),
                    ChessPiece { x: tx as u32, y: ty as u32, has_moved: true, ..p },
                ).remove((fx, fy)),
                ..self
            },
        }
    }

    /// The ply from `(fx, fy)` to `(tx, ty)` is a king going two files along
    /// its rank.
    pub open spec fn is_castling(self, fx: int, fy: int, tx: int, ty: int) -> bool {
        self.at(fx, fy) matches Some(p) && p.kind == ChessPieceKind::King && fy == ty && (tx - fx
            == 2 || fx - tx == 2)
    }

    /// The ply from `(fx, fy)` to `(tx, ty)` is a pawn going one file and one
    /// rank onto an empty square, right after a two-rank advance that ended
    /// beside it in the file it moves into.
    pub open spec fn is_en_passant(self, fx: int, fy: int, tx: int, ty: int) -> bool {
        &&& tx - fx == 1 || fx - tx == 1
        &&& ty - fy == 1 || fy - ty == 1
        &&& self.at(tx, ty) is None
        &&& self.at(fx, fy) matches Some(p) && p.kind == ChessPieceKind::Pawn
            && self.last_ply_in_file(tx, ty + p.colour.spec_forward(), fy)
    }

    /// The position after the piece on `(fx, fy)` has gone to `(tx, ty)`.
    /// A castling king takes the piece in the corner on its side along, to
    /// the square the king passed over; a pawn capturing in passing removes
    /// what stands beside it in the file it moved into.  The ply is then
    /// recorded as the last one.  Unchanged where `(fx, fy)` is empty.
    pub open spec fn after_move(self, fx: int, fy: int, tx: int, ty: int) -> BoardState {
        if self.at(fx, fy) is None {
            self
        } else {
            let moved = self.relocate(fx, fy, tx, ty);
            let settled = if self.is_castling(fx, fy, tx, ty) {
                if tx > fx {
                    moved.relocate(7, fy, tx - 1, fy)
                } else {
                    moved.relocate(0, fy, tx + 1, fy)
                }
            } else if self.is_en_passant(fx, fy, tx, ty) {
                BoardState { pieces: moved.pieces.remove((tx, fy)), ..moved }
            } else {
                moved
            };
            BoardState {
                last_move: Some(
                    MoveFromTo {
                        from: BoardPos { x: fx as u32, y: fy as u32 },
                        to: BoardPos { x: tx as u32, y: ty as u32 },
                    },
                ),
                ..settled
            }
        }
    }

    /// The position after the ply has been committed: the move applied, and
    /// the check on the side that did not move recorded.  Unchanged where
    /// `(fx, fy)` is empty.
    pub open spec fn after_commit(self, fx: int, fy: int, tx: int, ty: int) -> BoardState {
        match self.at(fx, fy) {
            None => self,
            Some(p) => {
                let next = self.after_move(fx, fy, tx, ty);
                BoardState {
                    check: if next.in_check(p.colour.spec_opposite()) {
                        Some(p.colour.spec_opposite())
                    } else {
                        None
                    },
                    ..next
                }
            },
        }
    }
}

} // verus!
