//! Sets of squares and sets of moves, kept as membership tables over the
//! 64 squares.  Neither can hold anything that lies off the board.

use vstd::prelude::*;
use crate::geometry::between;
use crate::squares::{BoardPos, Move};

verus! {

/// Where a square's entry stands in a membership table.
pub open spec fn cell_index(x: int, y: int) -> int {
    y * 8 + x
}

/// The members of `set` strictly between `from` and `to` that can be reached
/// from `from` through members alone: the run of members that starts beside
/// `from` and leads towards `to`.  Empty when the two squares share no rank,
/// file or diagonal.
pub open spec fn open_run(set: Set<BoardPos>, from: BoardPos, to: BoardPos) -> Set<BoardPos> {
    Set::new(
        |s: BoardPos|
            between(
                from.x as int,
                from.y as int,
                s.x as int,
                s.y as int,
                to.x as int,
                to.y as int,
            ) && forall|t: BoardPos|
                (t == s || between(
                    from.x as int,
                    from.y as int,
                    t.x as int,
                    t.y as int,
                    s.x as int,
                    s.y as int,
                )) ==> #[trigger] set.contains(t),
    )
}

/// A set of squares of the board.
#[derive(Debug, Clone, Copy)]
pub struct SquareSet {
    cells: [bool; 64],
}

impl View for SquareSet {
    type V = Set<BoardPos>;

    closed spec fn view(&self) -> Set<BoardPos> {
        Set::new(|p: BoardPos| p.x < 8 && p.y < 8 && self.cells[cell_index(p.x as int, p.y as int)])
    }
}

impl SquareSet {
    /// The empty set.
    pub fn new() -> (set: Self)
        ensures
            set@ == Set::<BoardPos>::empty(),
    {
        let set = SquareSet { cells: [false;64] };
        assert(set@ =~= Set::<BoardPos>::empty());
        set
    }

    /// Whether `pos` is a member.  A square off the board never is.
    pub fn contains(&self, pos: &BoardPos) -> (found: bool)
        ensures
            found == self@.contains(*pos),
    {
        pos.x < 8 && pos.y < 8 && self.cells[(pos.y * 8 + pos.x) as usize]
    }

    /// Adds `pos`.
    pub fn insert(&mut self, pos: BoardPos)
        requires
            pos.x < 8,
            pos.y < 8,
        ensures
            final(self)@ == old(self)@.insert(pos),
    {
        self.cells[(pos.y * 8 + pos.x) as usize] = true;
        assert(self@ =~= old(self)@.insert(pos));
    }

    /// Whether the set has no member.
    pub fn is_empty(&self) -> (empty: bool)
        ensures
            empty == (self@ == Set::<BoardPos>::empty()),
    {
        let mut i: usize = 0;
        while i < 64
            invariant
                i <= 64,
                forall|j: int| 0 <= j < i ==> !self.cells[j],
            decreases 64 - i,
        {
            if self.cells[i] {
                proof {
                    let p = BoardPos { x: (i % 8) as u32, y: (i / 8) as u32 };
                    assert(self@.contains(p));
                }
                return false;
            }
            i += 1;
        }
        assert(self@ =~= Set::<BoardPos>::empty());
        true
    }

    /// The union of the two sets.
    pub fn union(&self, other: &SquareSet) -> (both: SquareSet)
        ensures
            both@ == self@.union(other@),
    {
        let mut both = SquareSet { cells: [false;64] };
        let mut i: usize = 0;
        while i < 64
            invariant
                i <= 64,
                forall|j: int| 0 <= j < i ==> both.cells[j] == (self.cells[j] || other.cells[j]),
            decreases 64 - i,
        {
            both.cells[i] = self.cells[i] || other.cells[i];
            i += 1;
        }
        assert(both@ =~= self@.union(other@));
        both
    }

    /// The members strictly between `pos1` and `pos2` on the line the two
    /// share, walking from `pos1` one square at a time for as long as the
    /// squares are members.
    pub fn between(&self, pos1: BoardPos, pos2: BoardPos) -> (run: SquareSet)
        ensures
            run@ == open_run(self@, pos1, pos2),
    {
        let mut run = SquareSet::new();
        let ex: i64 = pos2.x as i64 - pos1.x as i64;
        let ey: i64 = pos2.y as i64 - pos1.y as i64;
        if (ex == 0 && ey == 0) || !(ex == 0 || ey == 0 || ex == ey || ex == -ey) {
            assert(run@ =~= open_run(self@, pos1, pos2));
            return run;
        }
        let dx: i64 = if ex > 0 {
            1
        } else if ex < 0 {
            -1
        } else {
            0
        };
        let dy: i64 = if ey > 0 {
            1
        } else if ey < 0 {
            -1
        } else {
            0
        };
        let mut cx: i64 = pos1.x as i64 + dx;
        let mut cy: i64 = pos1.y as i64 + dy;
        let mut open = true;
        while open && !(cx == pos2.x as i64 && cy == pos2.y as i64)
            invariant
                ex == pos2.x - pos1.x,
                ey == pos2.y - pos1.y,
                ex != 0 || ey != 0,
                ex == 0 || ey == 0 || ex == ey || ex == -ey,
                dx == (if ex > 0 {
                    1int
                } else if ex < 0 {
                    -1int
                } else {
                    0int
                }),
                dy == (if ey > 0 {
                    1int
                } else if ey < 0 {
                    -1int
                } else {
                    0int
                }),
                0 <= cx <= u32::MAX,
                0 <= cy <= u32::MAX,
                between(
                    pos1.x as int,
                    pos1.y as int,
                    cx as int,
                    cy as int,
                    pos2.x as int,
                    pos2.y as int,
                ) || (cx == pos2.x && cy == pos2.y),
                !open ==> !self@.contains(BoardPos { x: cx as u32, y: cy as u32 }) && !(cx
                    == pos2.x && cy == pos2.y),
                forall|s: BoardPos|
                    between(
                        pos1.x as int,
                        pos1.y as int,
                        s.x as int,
                        s.y as int,
                        cx as int,
                        cy as int,
                    ) ==> self@.contains(s) && run@.contains(s),
                forall|s: BoardPos|
                    run@.contains(s) ==> between(
                        pos1.x as int,
                        pos1.y as int,
                        s.x as int,
                        s.y as int,
                        cx as int,
                        cy as int,
                    ),
            decreases
                    (if open {
                        1int
                    } else {
                        0int
                    }),
                    (if dx > 0 {
                        pos2.x - cx
                    } else if dx < 0 {
                        cx - pos2.x
                    } else if dy > 0 {
                        pos2.y - cy
                    } else {
                        cy - pos2.y
                    }),
        {
            let square = BoardPos { x: cx as u32, y: cy as u32 };
            if self.contains(&square) {
                run.insert(square);
                cx = cx + dx;
                cy = cy + dy;
            } else {
                open = false;
            }
        }
        proof {
            let here = BoardPos { x: cx as u32, y: cy as u32 };
            assert forall|s: BoardPos| run@.contains(s) <==> open_run(self@, pos1, pos2).contains(
                s,
            ) by {
                if open_run(self@, pos1, pos2).contains(s) && !open {
                    if !between(
                        pos1.x as int,
                        pos1.y as int,
                        s.x as int,
                        s.y as int,
                        cx as int,
                        cy as int,
                    ) {
                        assert(here == s || between(
                            pos1.x as int,
                            pos1.y as int,
                            here.x as int,
                            here.y as int,
                            s.x as int,
                            s.y as int,
                        ));
                        assert(self@.contains(here));
                    }
                }
            }
            assert(run@ =~= open_run(self@, pos1, pos2));
        }
        run
    }

    /// The members in rank-major order: by rank, then by file.
    pub fn to_vec(&self) -> (list: Vec<BoardPos>)
        ensures
            forall|p: BoardPos| list@.contains(p) <==> self@.contains(p),
            forall|i: int| 0 <= i < list.len() ==> (#[trigger] list[i]).x < 8 && list[i].y < 8,
            forall|i: int, j: int|
                0 <= i < j < list.len() ==> cell_index(list[i].x as int, list[i].y as int)
                    < cell_index(list[j].x as int, list[j].y as int),
    {
        let mut list: Vec<BoardPos> = Vec::new();
        let mut i: usize = 0;
        while i < 64
            invariant
                i <= 64,
                forall|k: int|
                    0 <= k < list.len() ==> (#[trigger] list[k]).x < 8 && list[k].y < 8
                        && cell_index(list[k].x as int, list[k].y as int) < i && self@.contains(
                        list[k],
                    ),
                forall|p: BoardPos|
                    self@.contains(p) && cell_index(p.x as int, p.y as int) < i
                        ==> list@.contains(p),
                forall|a: int, b: int|
                    0 <= a < b < list.len() ==> cell_index(list[a].x as int, list[a].y as int)
                        < cell_index(list[b].x as int, list[b].y as int),
            decreases 64 - i,
        {
            if self.cells[i] {
                let p = BoardPos { x: (i % 8) as u32, y: (i / 8) as u32 };
                let ghost before = list@;
                list.push(p);
                proof {
                    assert(list@[before.len() as int] == p);
                    assert forall|q: BoardPos|
                        self@.contains(q) && cell_index(q.x as int, q.y as int) < i + 1
                            implies list@.contains(q) by {
                        if cell_index(q.x as int, q.y as int) < i {
                            let k = choose|k: int| 0 <= k < before.len() && before[k] == q;
                            assert(list@[k] == q);
                        } else {
                            assert(q == p);
                        }
                    }
                }
            }
            i += 1;
        }
        proof {
            assert forall|p: BoardPos| list@.contains(p) implies self@.contains(p) by {
                let k = choose|k: int| 0 <= k < list.len() && list@[k] == p;
                assert(self@.contains(list[k]));
            }
        }
        list
    }
}

/// Where a move stands in the order in which a move set lists its members:
/// by rank, then by file, a quiet move before a capture of the same square.
pub open spec fn move_index(m: Move) -> int {
    2 * cell_index(m.x as int, m.y as int) + if m.takes {
        1int
    } else {
        0int
    }
}

/// A set of moves, each a square of the board with a capture flag.
#[derive(Debug, Clone, Copy)]
pub struct MoveSet {
    quiet: [bool; 64],
    captures: [bool; 64],
}

impl View for MoveSet {
    type V = Set<Move>;

    closed spec fn view(&self) -> Set<Move> {
        Set::new(
            |m: Move|
                m.x < 8 && m.y < 8 && if m.takes {
                    self.captures[cell_index(m.x as int, m.y as int)]
                } else {
                    self.quiet[cell_index(m.x as int, m.y as int)]
                },
        )
    }
}

impl MoveSet {
    /// Every member lands on a square of the board.
    pub proof fn lemma_on_board(&self)
        ensures
            forall|m: Move| #[trigger] self@.contains(m) ==> m.x < 8 && m.y < 8,
    {
    }

    /// The empty set.
    pub fn new() -> (set: Self)
        ensures
            set@ == Set::<Move>::empty(),
    {
        let set = MoveSet { quiet: [false;64], captures: [false;64] };
        assert(set@ =~= Set::<Move>::empty());
        set
    }

    /// Whether `mv` is a member.  A move to a square off the board never is.
    pub fn contains(&self, mv: &Move) -> (found: bool)
        ensures
            found == self@.contains(*mv),
    {
        if mv.x < 8 && mv.y < 8 {
            if mv.takes {
                self.captures[(mv.y * 8 + mv.x) as usize]
            } else {
                self.quiet[(mv.y * 8 + mv.x) as usize]
            }
        } else {
            false
        }
    }

    /// Adds `mv`.
    pub fn insert(&mut self, mv: Move)
        requires
            mv.x < 8,
            mv.y < 8,
        ensures
            final(self)@ == old(self)@.insert(mv),
    {
        if mv.takes {
            self.captures[(mv.y * 8 + mv.x) as usize] = true;
        } else {
            self.quiet[(mv.y * 8 + mv.x) as usize] = true;
        }
        assert(self@ =~= old(self)@.insert(mv));
    }

    /// Whether the set has no member.
    pub fn is_empty(&self) -> (empty: bool)
        ensures
            empty == (self@ == Set::<Move>::empty()),
    {
        let mut i: usize = 0;
        while i < 64
            invariant
                i <= 64,
                forall|j: int| 0 <= j < i ==> !self.quiet[j] && !self.captures[j],
            decreases 64 - i,
        {
            if self.quiet[i] || self.captures[i] {
                proof {
                    let m = Move {
                        x: (i % 8) as u32,
                        y: (i / 8) as u32,
                        takes: self.captures[i as int],
                    };
                    assert(self@.contains(m));
                }
                return false;
            }
            i += 1;
        }
        assert(self@ =~= Set::<Move>::empty());
        true
    }

    /// The union of the two sets.
    pub fn union(&self, other: &MoveSet) -> (both: MoveSet)
        ensures
            both@ == self@.union(other@),
    {
        let mut both = MoveSet { quiet: [false;64], captures: [false;64] };
        let mut i: usize = 0;
        while i < 64
            invariant
                i <= 64,
                forall|j: int|
                    0 <= j < i ==> both.quiet[j] == (self.quiet[j] || other.quiet[j])
                        && both.captures[j] == (self.captures[j] || other.captures[j]),
            decreases 64 - i,
        {
            both.quiet[i] = self.quiet[i] || other.quiet[i];
            both.captures[i] = self.captures[i] || other.captures[i];
            i += 1;
        }
        assert(both@ =~= self@.union(other@));
        both
    }

    /// The members that land on a square of `squares`.
    pub fn only_squares(&self, squares: &SquareSet) -> (kept: MoveSet)
        ensures
            kept@ == self@.filter(|m: Move| squares@.contains(m.spec_pos())),
    {
        let mut kept = MoveSet { quiet: [false;64], captures: [false;64] };
        let mut i: usize = 0;
        while i < 64
            invariant
                i <= 64,
                forall|j: int|
                    0 <= j < i ==> kept.quiet[j] == (self.quiet[j] && squares.cells[j])
                        && kept.captures[j] == (self.captures[j] && squares.cells[j]),
            decreases 64 - i,
        {
            kept.quiet[i] = self.quiet[i] && squares.cells[i];
            kept.captures[i] = self.captures[i] && squares.cells[i];
            i += 1;
        }
        assert(kept@ =~= self@.filter(|m: Move| squares@.contains(m.spec_pos())));
        kept
    }

    /// The members that land on no square of `squares`.
    pub fn without_squares(&self, squares: &SquareSet) -> (kept: MoveSet)
        ensures
            kept@ == self@.filter(|m: Move| !squares@.contains(m.spec_pos())),
    {
        let mut kept = MoveSet { quiet: [false;64], captures: [false;64] };
        let mut i: usize = 0;
        while i < 64
            invariant
                i <= 64,
                forall|j: int|
                    0 <= j < i ==> kept.quiet[j] == (self.quiet[j] && !squares.cells[j])
                        && kept.captures[j] == (self.captures[j] && !squares.cells[j]),
            decreases 64 - i,
        {
            kept.quiet[i] = self.quiet[i] && !squares.cells[i];
            kept.captures[i] = self.captures[i] && !squares.cells[i];
            i += 1;
        }
        assert(kept@ =~= self@.filter(|m: Move| !squares@.contains(m.spec_pos())));
        kept
    }

    /// The members in order of `move_index`.
    pub fn to_vec(&self) -> (list: Vec<Move>)
        ensures
            forall|m: Move| list@.contains(m) <==> self@.contains(m),
            forall|i: int| 0 <= i < list.len() ==> (#[trigger] list[i]).x < 8 && list[i].y < 8,
            forall|i: int, j: int|
                0 <= i < j < list.len() ==> move_index(list[i]) < move_index(list[j]),
    {
        let mut list: Vec<Move> = Vec::new();
        let mut i: usize = 0;
        while i < 64
            invariant
                i <= 64,
                forall|k: int|
                    0 <= k < list.len() ==> (#[trigger] list[k]).x < 8 && list[k].y < 8
                        && move_index(list[k]) < 2 * i && self@.contains(list[k]),
                forall|m: Move| self@.contains(m) && move_index(m) < 2 * i ==> list@.contains(m),
                forall|a: int, b: int|
                    0 <= a < b < list.len() ==> move_index(list[a]) < move_index(list[b]),
            decreases 64 - i,
        {
            if self.quiet[i] {
                let m = Move { x: (i % 8) as u32, y: (i / 8) as u32, takes: false };
                let ghost before = list@;
                list.push(m);
                proof {
                    assert(list@[before.len() as int] == m);
                    assert forall|q: Move|
                        self@.contains(q) && move_index(q) < 2 * i + 1 implies list@.contains(
                        q,
                    ) by {
                        if move_index(q) < 2 * i {
                            let k = choose|k: int| 0 <= k < before.len() && before[k] == q;
                            assert(list@[k] == q);
                        } else {
                            assert(q == m);
                        }
                    }
                }
            }
            if self.captures[i] {
                let m = Move { x: (i % 8) as u32, y: (i / 8) as u32, takes: true };
                let ghost before = list@;
                list.push(m);
                proof {
                    assert(list@[before.len() as int] == m);
                    assert forall|q: Move|
                        self@.contains(q) && move_index(q) < 2 * i + 2 implies list@.contains(
                        q,
                    ) by {
                        if move_index(q) < 2 * i + 1 {
                            if before.contains(q) {
                                let k = choose|k: int| 0 <= k < before.len() && before[k] == q;
                                assert(list@[k] == q);
                            } else {
                                assert(move_index(q) == 2 * i);
                                assert(!self.quiet[i as int]);
                                assert(false);
                            }
                        } else {
                            assert(q == m);
                        }
                    }
                }
            }
            i += 1;
        }
        proof {
            assert forall|m: Move| list@.contains(m) implies self@.contains(m) by {
                let k = choose|k: int| 0 <= k < list.len() && list@[k] == m;
                assert(self@.contains(list[k]));
            }
        }
        list
    }
}

} // verus!
