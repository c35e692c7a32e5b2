//! Check and pins: who attacks a king, which pieces may not leave their
//! line, and which candidate moves remain legal.

use vstd::prelude::*;
use crate::board::Board;
use crate::geometry::{between, on_board};
use crate::pieces::{ChessPiece, ChessPieceColour, ChessPieceKind};
use crate::sets::{open_run, MoveSet, SquareSet};
use crate::squares::{BoardPos, Move};
use crate::state::{scan_x, scan_y};

verus! {

/// The place of `(x, y)` in the order in which the board lists its squares.
pub open spec fn scan_index(x: int, y: int) -> int {
    (7 - y) * 8 + x
}

impl Board {
    /// The first piece of `kind` and `colour` in the board's listing order,
    /// if the board holds one.
    pub fn find_piece(&self, kind: ChessPieceKind, colour: ChessPieceColour) -> (found: Option<
        ChessPiece,
    >)
        ensures
            found == self@.find_piece(kind, colour),
    {
        let mut i: u32 = 0;
        while i < 64
            invariant
                i <= 64,
                self@.find_piece(kind, colour) == self@.find_from(kind, colour, i as int),
            decreases 64 - i,
        {
            let x: u32 = i % 8;
            let y: u32 = 7 - i / 8;
            assert(x == scan_x(i as int) && y == scan_y(i as int));
            if let Some(piece) = self.get(x, y) {
                if piece.kind == kind && piece.colour == colour {
                    return Some(*piece);
                }
            }
            i += 1;
        }
        None
    }

    /// The pieces that attack the king of `colour`, in the board's listing
    /// order; none where the board holds no such king.
    pub fn get_king_attackers(&self, colour: ChessPieceColour) -> (attackers: Vec<ChessPiece>)
        requires
            self.wf(),
        ensures
            forall|p: ChessPiece| attackers@.contains(p) <==> self@.is_attacker(colour, p),
            forall|i: int, j: int|
                0 <= i < j < attackers.len() ==> scan_index(
                    attackers[i].x as int,
                    attackers[i].y as int,
                ) < scan_index(attackers[j].x as int, attackers[j].y as int),
    {
        let mut attackers: Vec<ChessPiece> = Vec::new();
        let king = match self.find_piece(ChessPieceKind::King, colour) {
            Some(king) => king,
            None => {
                assert forall|p: ChessPiece| attackers@.contains(p) <==> self@.is_attacker(
                    colour,
                    p,
                ) by {}
                return attackers;
            },
        };
        let target = BoardPos { x: king.x, y: king.y };
        let mut i: u32 = 0;
        while i < 64
            invariant
                i <= 64,
                self.wf(),
                self@.find_piece(ChessPieceKind::King, colour) == Some(king),
                target == (BoardPos { x: king.x, y: king.y }),
                forall|k: int|
                    0 <= k < attackers.len() ==> self@.is_attacker(colour, #[trigger] attackers[k])
                        && scan_index(attackers[k].x as int, attackers[k].y as int) < i,
                forall|p: ChessPiece|
                    self@.is_attacker(colour, p) && scan_index(p.x as int, p.y as int) < i
                        ==> attackers@.contains(p),
                forall|a: int, b: int|
                    0 <= a < b < attackers.len() ==> scan_index(
                        attackers[a].x as int,
                        attackers[a].y as int,
                    ) < scan_index(attackers[b].x as int, attackers[b].y as int),
            decreases 64 - i,
        {
            let x: u32 = i % 8;
            let y: u32 = 7 - i / 8;
            let ghost before = attackers@;
            let mut attacks = false;
            if let Some(piece) = self.get(x, y) {
                if piece.colour != colour {
                    if let Some(threats) = self.get_threatened_tiles(x, y) {
                        if threats.contains(&target) {
                            attacks = true;
                            attackers.push(*piece);
                        }
                    }
                }
            }
            proof {
                assert(scan_index(x as int, y as int) == i);
                if attacks {
                    assert(attackers@[before.len() as int] == self@.at(
                        x as int,
                        y as int,
                    ).unwrap());
                }
                assert forall|p: ChessPiece|
                    self@.is_attacker(colour, p) && scan_index(p.x as int, p.y as int) < i
                        + 1 implies attackers@.contains(p) by {
                    if scan_index(p.x as int, p.y as int) < i {
                        assert(before.contains(p));
                        let k = choose|k: int| 0 <= k < before.len() && before[k] == p;
                        assert(attackers@[k] == p);
                    } else {
                        assert(on_board(p.x as int, p.y as int));
                        assert(p.x == x && p.y == y);
                        assert(attackers@[before.len() as int] == p);
                    }
                }
            }
            i += 1;
        }
        proof {
            assert forall|p: ChessPiece| attackers@.contains(p) <==> self@.is_attacker(
                colour,
                p,
            ) by {
                if attackers@.contains(p) {
                    let k = choose|k: int| 0 <= k < attackers.len() && attackers@[k] == p;
                    assert(self@.is_attacker(colour, attackers[k]));
                }
                if self@.is_attacker(colour, p) {
                    assert(on_board(p.x as int, p.y as int));
                }
            }
        }
        attackers
    }

    /// Whether every square strictly between `(ax, ay)` and `(bx, by)` is
    /// empty; true when the two share no rank, file or diagonal.
    pub fn path_clear(&self, ax: u32, ay: u32, bx: u32, by: u32) -> (clear: bool)
        requires
            ax < 8,
            ay < 8,
            bx < 8,
            by < 8,
        ensures
            clear == self@.clear_between(ax as int, ay as int, bx as int, by as int),
    {
        let ex: i32 = bx as i32 - ax as i32;
        let ey: i32 = by as i32 - ay as i32;
        if (ex == 0 && ey == 0) || !(ex == 0 || ey == 0 || ex == ey || ex == -ey) {
            return true;
        }
        let dx: i32 = if ex > 0 {
            1
        } else if ex < 0 {
            -1
        } else {
            0
        };
        let dy: i32 = if ey > 0 {
            1
        } else if ey < 0 {
            -1
        } else {
            0
        };
        let mut cx: i32 = ax as i32 + dx;
        let mut cy: i32 = ay as i32 + dy;
        while !(cx == bx as i32 && cy == by as i32)
            invariant
                ax < 8,
                ay < 8,
                bx < 8,
                by < 8,
                ex == bx - ax,
                ey == by - ay,
                ex != 0 || ey != 0,
                ex == 0 || ey == 0 || ex == ey || ex == -ey,
                dx == (if ex > 0 {
                    1int
                } else if ex < 0 {
                    -1int
                } else {
                    0int
                }),
                dy == (if ey > 0 {
                    1int
                } else if ey < 0 {
                    -1int
                } else {
                    0int
                }),
                between(ax as int, ay as int, cx as int, cy as int, bx as int, by as int) || (cx
                    == bx && cy == by),
                forall|sx: int, sy: int| #[trigger]
                    between(ax as int, ay as int, sx, sy, cx as int, cy as int) ==> self@.at(
                        sx,
                        sy,
                    ) is None,
            decreases
                    (if dx > 0 {
                        bx - cx
                    } else if dx < 0 {
                        cx - bx
                    } else if dy > 0 {
                        by - cy
                    } else {
                        cy - by
                    }),
        {
            if self.get(cx as u32, cy as u32).is_some() {
                return false;
            }
            proof {
                assert forall|sx: int, sy: int| #[trigger]
                    between(ax as int, ay as int, sx, sy, cx + dx, cy + dy) implies self@.at(
                    sx,
                    sy,
                ) is None by {
                    if sx != cx || sy != cy {
                        assert(between(ax as int, ay as int, sx, sy, cx as int, cy as int));
                    }
                }
            }
            cx = cx + dx;
            cy = cy + dy;
        }
        true
    }

    /// Whether the piece on `(x, y)` is pinned against its own king by a
    /// slider of the other side.
    pub fn is_pinned(&self, x: u32, y: u32) -> (pinned: bool)
        requires
            self.wf(),
        ensures
            pinned == self@.pinned(x as int, y as int),
    {
        let piece = match self.get(x, y) {
            Some(p) => *p,
            None => {
                return false;
            },
        };
        let king = match self.find_piece(ChessPieceKind::King, piece.colour) {
            Some(king) => king,
            None => {
                return false;
            },
        };
        proof {
            self@.lemma_find_piece(ChessPieceKind::King, piece.colour);
            self.lemma_occupied_on_board(x as int, y as int);
        }
        if !self.path_clear(king.x, king.y, x, y) {
            return false;
        }
        let here = BoardPos { x, y };
        let mut i: u32 = 0;
        while i < 64
            invariant
                i <= 64,
                self.wf(),
                x < 8,
                y < 8,
                king.x < 8,
                king.y < 8,
                here == (BoardPos { x, y }),
                self@.at(x as int, y as int) == Some(piece),
                self@.find_piece(ChessPieceKind::King, piece.colour) == Some(king),
                self@.clear_between(king.x as int, king.y as int, x as int, y as int),
                forall|sx: int, sy: int|
                    #![trigger self@.at(sx, sy)]
                    on_board(sx, sy) && sy * 8 + sx < i ==> !(self@.at(sx, sy) matches Some(s)
                        && s.colour != piece.colour && s.kind.spec_is_slider() && self@.pins(
                        king.x as int,
                        king.y as int,
                        sx,
                        sy,
                        x as int,
                        y as int,
                    )),
            decreases 64 - i,
        {
            let sx: u32 = i % 8;
            let sy: u32 = i / 8;
            if let Some(other) = self.get(sx, sy) {
                if other.colour != piece.colour && other.kind.is_slider() {
                    if is_between(king.x, king.y, x, y, sx, sy) {
                        if let Some(threats) = self.get_threatened_tiles(sx, sy) {
                            if threats.contains(&here) {
                                assert(self@.pins(
                                    king.x as int,
                                    king.y as int,
                                    sx as int,
                                    sy as int,
                                    x as int,
                                    y as int,
                                ));
                                assert(self@.at(sx as int, sy as int) matches Some(s) && s.colour
                                    != piece.colour && s.kind.spec_is_slider() && self@.pins(
                                    king.x as int,
                                    king.y as int,
                                    sx as int,
                                    sy as int,
                                    x as int,
                                    y as int,
                                ));
                                return true;
                            }
                        }
                    }
                }
            }
            i += 1;
        }
        proof {
            assert forall|sx: int, sy: int| #![trigger self@.at(sx, sy)] !(self@.at(
                sx,
                sy,
            ) matches Some(s) && s.colour != piece.colour && s.kind.spec_is_slider() && self@.pins(
                king.x as int,
                king.y as int,
                sx,
                sy,
                x as int,
                y as int,
            )) by {
                if self@.at(sx, sy) is Some {
                    self.lemma_occupied_on_board(sx, sy);
                }
            }
        }
        false
    }
    /// The legal moves of the piece on `(x, y)`; none where no piece stands,
    /// which includes every square off the board.  A pinned piece has no
    /// legal move.  While the piece's side is recorded as in check, a piece
    /// other than the king may only capture the one attacker or, if that is
    /// a slider, step between it and the king; with two attackers it has no
    /// legal move.
    pub fn get_moves(&self, x: u32, y: u32) -> (moves: Option<MoveSet>)
        requires
            self.wf(),
        ensures
            moves is Some == self@.at(x as int, y as int) is Some,
            moves matches Some(set) ==> set@ == self@.legal_moves(x as int, y as int),
    {
        let piece = match self.get(x, y) {
            Some(p) => *p,
            None => {
                return None;
            },
        };
        let candidates = match self.get_candidate_moves(x, y) {
            Some(set) => set,
            None => {
                return None;
            },
        };
        if self.is_pinned(x, y) {
            let none = MoveSet::new();
            assert(none@ =~= self@.legal_moves(x as int, y as int));
            return Some(none);
        }
        let in_check = match self.check() {
            Some(side) => side == piece.colour,
            None => false,
        };
        if !in_check || piece.kind == ChessPieceKind::King {
            assert(candidates@ =~= self@.legal_moves(x as int, y as int));
            return Some(candidates);
        }
        let attackers = self.get_king_attackers(piece.colour);
        if attackers.len() == 0 {
            proof {
                assert forall|m: Move| #[trigger]
                    candidates@.contains(m) implies self@.resolves_check(
                    piece.colour,
                    m.x as int,
                    m.y as int,
                ) by {
                    assert forall|a: ChessPiece| !self@.is_attacker(piece.colour, a) by {
                        assert(!attackers@.contains(a));
                    }
                }
                assert(candidates@ =~= self@.legal_moves(x as int, y as int));
            }
            return Some(candidates);
        }
        if attackers.len() > 1 {
            let none = MoveSet::new();
            proof {
                let a = attackers[0];
                let b = attackers[1];
                assert(attackers@.contains(a) && attackers@.contains(b));
                assert(self@.is_attacker(piece.colour, a) && self@.is_attacker(piece.colour, b));
                assert(a != b);
                assert forall|m: Move|
                    !self@.resolves_check(piece.colour, m.x as int, m.y as int) by {}
                assert(none@ =~= self@.legal_moves(x as int, y as int));
            }
            return Some(none);
        }
        let attacker = attackers[0];
        proof {
            assert(attackers@.contains(attacker));
            assert(self@.is_attacker(piece.colour, attacker));
            self.lemma_occupied_on_board(attacker.x as int, attacker.y as int);
            self@.lemma_find_piece(ChessPieceKind::King, piece.colour);
        }
        let from = BoardPos { x: attacker.x, y: attacker.y };
        let mut allowed = SquareSet::new();
        allowed.insert(from);
        if attacker.kind.is_slider() {
            if let Some(king) = self.find_piece(ChessPieceKind::King, piece.colour) {
                if let Some(threats) = self.get_threatened_tiles(attacker.x, attacker.y) {
                    let target = BoardPos { x: king.x, y: king.y };
                    allowed = allowed.union(&threats.between(target, from));
                    proof {
                        assert forall|s: BoardPos|
                            between(
                                king.x as int,
                                king.y as int,
                                s.x as int,
                                s.y as int,
                                attacker.x as int,
                                attacker.y as int,
                            ) implies open_run(threats@, target, from).contains(s) by {
                            assert forall|t: BoardPos|
                                (t == s || between(
                                    king.x as int,
                                    king.y as int,
                                    t.x as int,
                                    t.y as int,
                                    s.x as int,
                                    s.y as int,
                                )) implies #[trigger] threats@.contains(t) by {
                                self@.lemma_slider_threatens_path(
                                    attacker.x as int,
                                    attacker.y as int,
                                    king.x as int,
                                    king.y as int,
                                    t.x as int,
                                    t.y as int,
                                );
                            }
                        }
                    }
                }
            }
        }
        let kept = candidates.only_squares(&allowed);
        proof {
            assert forall|m: Move|
                kept@.contains(m) <==> self@.legal_moves(x as int, y as int).contains(m) by {
                assert forall|a: ChessPiece| #[trigger]
                    self@.is_attacker(piece.colour, a) implies a == attacker by {
                    assert(attackers@.contains(a));
                }
                if candidates@.contains(m) {
                    candidates.lemma_on_board();
                }
            }
            assert(kept@ =~= self@.legal_moves(x as int, y as int));
        }
        Some(kept)
    }

    /// The legal moves of the piece on `(x, y)` if it belongs to the side
    /// whose turn it is; none otherwise.
    pub fn get_moves_on_turn(&self, is_black_turn: bool, x: u32, y: u32) -> (moves: Option<
        MoveSet,
    >)
        requires
            self.wf(),
        ensures
            moves is Some == (self@.at(x as int, y as int) matches Some(p) && (p.colour
                == ChessPieceColour::Black) == is_black_turn),
            moves matches Some(set) ==> set@ == self@.legal_moves(x as int, y as int),
    {
        let own = match self.get(x, y) {
            Some(piece) => (piece.colour == ChessPieceColour::Black) == is_black_turn,
            None => false,
        };
        if own {
            self.get_moves(x, y)
        } else {
            None
        }
    }
}

/// Whether `(sx, sy)` lies strictly between `(ax, ay)` and `(bx, by)` on a
/// rank, file or diagonal that the two share.
pub fn is_between(ax: u32, ay: u32, sx: u32, sy: u32, bx: u32, by: u32) -> (inside: bool)
    requires
        ax < 8,
        ay < 8,
        sx < 8,
        sy < 8,
        bx < 8,
        by < 8,
    ensures
        inside == between(ax as int, ay as int, sx as int, sy as int, bx as int, by as int),
{
    let ex: i32 = bx as i32 - ax as i32;
    let ey: i32 = by as i32 - ay as i32;
    let tx: i32 = sx as i32 - ax as i32;
    let ty: i32 = sy as i32 - ay as i32;
    let in_x = (0 < tx && tx < ex) || (ex < tx && tx < 0);
    let in_y = (0 < ty && ty < ey) || (ey < ty && ty < 0);
    if ex == 0 {
        tx == 0 && in_y
    } else if ey == 0 {
        ty == 0 && in_x
    } else if ex == ey {
        tx == ty && in_x
    } else if ex == -ey {
        tx == -ty && in_x
    } else {
        false
    }
}

} // verus!
