//! Committing moves: the board as it stood before each ply is kept, the ply
//! is applied, and the check it gives is recorded.

use vstd::prelude::*;
use crate::board::Board;
use crate::pieces::ChessPiece;
use crate::state::BoardState;

verus! {

/// The boards as they stood before each committed ply, oldest first.
#[derive(Debug, Clone)]
pub struct BoardHistory(pub Vec<Board>);

impl View for BoardHistory {
    type V = Seq<BoardState>;

    open spec fn view(&self) -> Seq<BoardState> {
        self.0@.map_values(|board: Board| board@)
    }
}

impl Default for BoardHistory {
    /// A history with nothing in it.
    fn default() -> (history: Self)
        ensures
            history@ == Seq::<BoardState>::empty(),
    {
        let history = BoardHistory(Vec::new());
        assert(history@ =~= Seq::<BoardState>::empty());
        history
    }
}

impl Board {
    /// Commits the ply from `(from_x, from_y)` to `(to_x, to_y)`, without
    /// asking whether the rules allow it, and says whether a piece was there
    /// to move.  The board as it stood is appended to `history`; the move is
    /// applied as `_move` applies it; then the side that did not move is
    /// recorded as in check if a piece now attacks its king, and no check is
    /// recorded otherwise.  With no piece on the first square the board
    /// stays as it is.
    pub fn commit_move(
        &mut self,
        history: &mut BoardHistory,
        from_x: u32,
        from_y: u32,
        to_x: u32,
        to_y: u32,
    ) -> (moved: bool)
        requires
            old(self).wf(),
            to_x < 8,
            to_y < 8,
        ensures
            final(self).wf(),
            moved == old(self)@.at(from_x as int, from_y as int) is Some,
            final(self)@ == old(self)@.after_commit(
                from_x as int,
                from_y as int,
                to_x as int,
                to_y as int,
            ),
            final(history)@ == old(history)@.push(old(self)@),
    {
        history.0.push(*self);
        assert(history@ =~= old(history)@.push(old(self)@));
        let mover = match self.get(from_x, from_y) {
            Some(piece) => piece.colour,
            None => {
                return false;
            },
        };
        self._move(from_x, from_y, to_x, to_y);
        let attackers = self.get_king_attackers(mover.opposite());
        proof {
            let next = self@;
            let side = mover.spec_opposite();
            if attackers.len() > 0 {
                assert(attackers@.contains(attackers[0]));
                assert(next.is_attacker(side, attackers[0]));
            } else {
                assert forall|p: ChessPiece| !next.is_attacker(side, p) by {
                    assert(!attackers@.contains(p));
                }
            }
        }
        if attackers.len() > 0 {
            self.set_check(Some(mover.opposite()));
        } else {
            self.set_check(None);
        }
        true
    }
}

} // verus!
