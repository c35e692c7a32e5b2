//! What holds of every position: statements that relate the move sets to
//! the board they were made for.

use vstd::prelude::*;
use crate::geometry::{bishop_line, on_board, queen_line, rook_line};
use crate::pieces::{ChessPiece, ChessPieceColour, ChessPieceKind};
use crate::safety::lemma_relocate;
use crate::squares::Move;
use crate::state::BoardState;

verus! {

/// Every legal move is a candidate move of the same piece.
pub proof fn law_legal_moves_are_candidates(state: BoardState, x: int, y: int, m: Move)
    requires
        state.legal_moves(x, y).contains(m),
    ensures
        state.candidate_moves(x, y).contains(m),
{
}

/// A candidate move lands on a square of the board; it is a capture exactly
/// when a piece stands on that square, and that piece is then of the other
/// side.
pub proof fn law_moves_land_on_the_board(state: BoardState, x: int, y: int, m: Move)
    requires
        state.at(x, y) is Some,
        state.candidate_moves(x, y).contains(m),
    ensures
        on_board(m.x as int, m.y as int),
        m.takes <==> state.at(m.x as int, m.y as int) is Some,
        state.at(m.x as int, m.y as int) matches Some(q) ==> q.colour != state.at(
            x,
            y,
        ).unwrap().colour,
{
    let p = state.at(x, y).unwrap();
    if p.kind == ChessPieceKind::King {
        if BoardState::castling_move(x, y, 1, m) && state.may_castle(
            x,
            y,
            p.colour,
            p.has_moved,
            1,
        ) {
            assert(state.at(x + 2, y) is None);
        }
        if BoardState::castling_move(x, y, -1, m) && state.may_castle(
            x,
            y,
            p.colour,
            p.has_moved,
            -1,
        ) {
            assert(state.at(x - 2, y) is None);
        }
    }
}

/// A piece threatens squares of the board only, and never its own square.
pub proof fn law_threats_stay_on_the_board(state: BoardState, x: int, y: int, tx: int, ty: int)
    requires
        state.attacks(x, y, tx, ty),
    ensures
        on_board(tx, ty),
        tx != x || ty != y,
{
}

/// A piece that is not pinned, and that is a king or whose side is not
/// recorded as in check, may make each of its candidate moves.
pub proof fn law_unrestricted_piece_keeps_candidates(state: BoardState, x: int, y: int)
    requires
        state.at(x, y) is Some,
        !state.pinned(x, y),
        state.at(x, y).unwrap().kind == ChessPieceKind::King || state.check != Some(
            state.at(x, y).unwrap().colour,
        ),
    ensures
        state.legal_moves(x, y) == state.candidate_moves(x, y),
{
    assert(state.legal_moves(x, y) =~= state.candidate_moves(x, y));
}

/// A pinned piece has no legal move.
pub proof fn law_pinned_piece_cannot_move(state: BoardState, x: int, y: int)
    requires
        state.pinned(x, y),
    ensures
        state.legal_moves(x, y) == Set::<Move>::empty(),
{
    assert(state.legal_moves(x, y) =~= Set::<Move>::empty());
}

/// A pawn is offered the advance by two ranks exactly when it has not
/// moved and the two squares ahead of it are empty.
pub proof fn law_pawn_double_step(state: BoardState, x: int, y: int, m: Move)
    requires
        state.at(x, y) matches Some(p) && p.kind == ChessPieceKind::Pawn,
        !m.takes,
        m.x == x,
        m.y == y + 2 * state.at(x, y).unwrap().colour.spec_forward(),
    ensures
        state.candidate_moves(x, y).contains(m) <==> !state.at(x, y).unwrap().has_moved
            && state.empty_at(x, y + state.at(x, y).unwrap().colour.spec_forward())
            && state.empty_at(x, y + 2 * state.at(x, y).unwrap().colour.spec_forward()),
{
}

/// A pawn is offered a diagonal move onto an empty square exactly when the
/// last ply was the two-rank advance of a pawn that now stands beside it,
/// in the file it would move into.
pub proof fn law_en_passant(state: BoardState, x: int, y: int, m: Move)
    requires
        state.at(x, y) matches Some(p) && p.kind == ChessPieceKind::Pawn,
        !m.takes,
        m.x == x + 1 || m.x == x - 1,
        m.y == y + state.at(x, y).unwrap().colour.spec_forward(),
    ensures
        state.candidate_moves(x, y).contains(m) <==> state.empty_at(m.x as int, m.y as int)
            && state.last_ply_in_file(
            m.x as int,
            y + 2 * state.at(x, y).unwrap().colour.spec_forward(),
            y,
        ) && (state.at(m.x as int, y) matches Some(q) && q.kind == ChessPieceKind::Pawn),
{
}

/// A king that stands at least three files from a corner is offered the
/// castling move towards it exactly when: the king has not moved; a rook of
/// its colour that has not moved stands in the corner; every square between
/// the two is empty; and the other side threatens neither the king's square
/// nor any square between the two.
pub proof fn law_castling(state: BoardState, x: int, y: int, d: int, m: Move)
    requires
        state.at(x, y) matches Some(k) && k.kind == ChessPieceKind::King,
        on_board(x, y),
        d == 1 || d == -1,
        BoardState::castling_move(x, y, d, m),
        BoardState::towards_corner(x, d, m.x as int),
    ensures
        state.candidate_moves(x, y).contains(m) <==> {
            let king = state.at(x, y).unwrap();
            let enemy = king.colour.spec_opposite();
            &&& !king.has_moved
            &&& state.at(BoardState::corner_file(d), y) matches Some(r) && r.kind
                == ChessPieceKind::Rook && r.colour == king.colour && !r.has_moved
            &&& forall|sx: int|
                #![trigger state.at(sx, y)]
                BoardState::towards_corner(x, d, sx) ==> state.at(sx, y) is None
            &&& forall|sx: int|
                #![trigger state.threatened_by(enemy, sx, y)]
                BoardState::towards_corner(x, d, sx) ==> !state.threatened_by(enemy, sx, y)
            &&& !state.threatened_by(enemy, x, y)
        },
{
    let king = state.at(x, y).unwrap();
    let enemy = king.colour.spec_opposite();
    if state.may_castle(x, y, king.colour, king.has_moved, d) {
        assert(state.at(m.x as int, y) is None);
        assert forall|sx: int|
            #![trigger state.threatened_by(enemy, sx, y)]
            BoardState::towards_corner(x, d, sx) implies !state.threatened_by(enemy, sx, y) by {
            assert(state.at(sx, y) is None);
        }
    }
}

/// A castling move is offered only together with the step onto the square
/// that the king passes over.
pub proof fn law_castling_passes_reachable_square(
    state: BoardState,
    x: int,
    y: int,
    d: int,
    m: Move,
)
    requires
        state.at(x, y) matches Some(k) && k.kind == ChessPieceKind::King,
        d == 1 || d == -1,
        BoardState::castling_move(x, y, d, m),
        state.candidate_moves(x, y).contains(m),
    ensures
        state.candidate_moves(x, y).contains(
            Move { x: (x + d) as u32, y: y as u32, takes: false },
        ),
{
    assert(state.at(x + d, y) is None);
}

/// A rook, bishop or queen never passes an occupied square: every square
/// strictly between it and a square it may move to is empty.  It captures
/// exactly where it lands on a piece, and that piece is of the other side.
pub proof fn law_sliders_stop_at_first_piece(state: BoardState, x: int, y: int, m: Move)
    requires
        state.at(x, y) matches Some(p) && p.kind.spec_is_slider(),
        state.candidate_moves(x, y).contains(m),
    ensures
        on_board(m.x as int, m.y as int),
        state.clear_between(x, y, m.x as int, m.y as int),
        m.takes <==> state.at(m.x as int, m.y as int) is Some,
        state.at(m.x as int, m.y as int) matches Some(q) ==> q.colour != state.at(
            x,
            y,
        ).unwrap().colour,
{
}

/// A rook, bishop or queen may go to every square on one of its lines that
/// it reaches over empty squares alone, unless a piece of its own side
/// stands there.
pub proof fn law_sliders_reach_first_piece(state: BoardState, x: int, y: int, tx: int, ty: int)
    requires
        state.at(x, y) matches Some(p) && p.kind.spec_is_slider(),
        on_board(tx, ty),
        state.clear_between(x, y, tx, ty),
        match state.at(x, y).unwrap().kind {
            ChessPieceKind::Rook => rook_line(x, y, tx, ty),
            ChessPieceKind::Bishop => bishop_line(x, y, tx, ty),
            _ => queen_line(x, y, tx, ty),
        },
        !(state.at(tx, ty) matches Some(q) && q.colour == state.at(x, y).unwrap().colour),
    ensures
        state.candidate_moves(x, y).contains(
            Move { x: tx as u32, y: ty as u32, takes: state.at(tx, ty) is Some },
        ),
{
}

/// A square beyond an occupied one is out of a slider's reach.
pub proof fn law_sliders_blocked_beyond_first_piece(
    state: BoardState,
    x: int,
    y: int,
    bx: int,
    by: int,
    m: Move,
)
    requires
        state.at(x, y) matches Some(p) && p.kind.spec_is_slider(),
        state.at(bx, by) is Some,
        crate::geometry::between(x, y, bx, by, m.x as int, m.y as int),
    ensures
        !state.candidate_moves(x, y).contains(m),
{
}

/// A king is in check exactly when it stands on a square that some piece of
/// the other side threatens.
pub proof fn law_check_is_a_threat_on_the_king(state: BoardState, colour: ChessPieceColour)
    requires
        state.wf(),
    ensures
        state.in_check(colour) <==> (state.find_piece(ChessPieceKind::King, colour) matches Some(
            king,
        ) && state.threatened_by(colour.spec_opposite(), king.x as int, king.y as int)),
{
    if state.in_check(colour) {
        let p = choose|p: ChessPiece| state.is_attacker(colour, p);
        let king = state.find_piece(ChessPieceKind::King, colour).unwrap();
        assert(state.at(p.x as int, p.y as int) matches Some(q) && q.colour
            == colour.spec_opposite() && state.attacks(
            p.x as int,
            p.y as int,
            king.x as int,
            king.y as int,
        ));
    }
    if let Some(king) = state.find_piece(ChessPieceKind::King, colour) {
        if state.threatened_by(colour.spec_opposite(), king.x as int, king.y as int) {
            let (sx, sy) = choose|sx: int, sy: int|
                #![trigger state.at(sx, sy)]
                state.at(sx, sy) matches Some(q) && q.colour == colour.spec_opposite()
                    && state.attacks(sx, sy, king.x as int, king.y as int);
            let p = state.at(sx, sy).unwrap();
            assert(state.is_attacker(colour, p));
        }
    }
}

/// A move never clears the mark of having moved: a piece that stands
/// unmoved after a ply stood on the same square, unmoved, before it.
pub proof fn law_moved_mark_is_kept(
    state: BoardState,
    fx: int,
    fy: int,
    tx: int,
    ty: int,
    x: int,
    y: int,
)
    requires
        state.after_move(fx, fy, tx, ty).at(x, y) matches Some(q) && !q.has_moved,
    ensures
        state.at(x, y) == state.after_move(fx, fy, tx, ty).at(x, y),
{
    if state.at(fx, fy) is Some {
        let moved = state.relocate(fx, fy, tx, ty);
        let new = state.after_move(fx, fy, tx, ty);
        assert((x, y) != (tx, ty) || (tx, ty) == (fx, fy));
        if state.is_castling(fx, fy, tx, ty) {
            let cx = if tx > fx {
                7int
            } else {
                0int
            };
            let px = if tx > fx {
                tx - 1
            } else {
                tx + 1
            };
            let second = moved.relocate(cx, fy, px, fy);
            assert(new.pieces == second.pieces);
            assert((x, y) != (px, fy) || moved.at(cx, fy) is None);
        }
    }
}

/// Castling takes the rook along: after a castling move the king stands two
/// files from where it stood, the rook of its corner stands on the square
/// the king passed over, both marked as moved, and the king's old square and
/// the corner are empty.
pub proof fn law_castling_takes_the_rook_along(state: BoardState, x: int, y: int, d: int, m: Move)
    requires
        state.at(x, y) matches Some(k) && k.kind == ChessPieceKind::King,
        d == 1 || d == -1,
        BoardState::castling_move(x, y, d, m),
        state.may_castle(
            x,
            y,
            state.at(x, y).unwrap().colour,
            state.at(x, y).unwrap().has_moved,
            d,
        ),
    ensures
        ({
            let next = state.after_move(x, y, m.x as int, y);
            let king = state.at(x, y).unwrap();
            let rook = state.at(BoardState::corner_file(d), y).unwrap();
            &&& next.at(x + 2 * d, y) == Some(
                ChessPiece { x: (x + 2 * d) as u32, y: y as u32, has_moved: true, ..king },
            )
            &&& next.at(x + d, y) == Some(
                ChessPiece { x: (x + d) as u32, y: y as u32, has_moved: true, ..rook },
            )
            &&& next.at(x, y) is None
            &&& next.at(BoardState::corner_file(d), y) is None
        }),
{
    let cx = BoardState::corner_file(d);
    assert(state.at(x + 2 * d, y) is None);
    assert(state.at(x + d, y) is None);
    lemma_relocate(state, x, y, x + 2 * d, y);
    let first = state.relocate(x, y, x + 2 * d, y);
    assert(first.at(cx, y) == state.at(cx, y));
    lemma_relocate(first, cx, y, x + d, y);
    let second = first.relocate(cx, y, x + d, y);
    let next = state.after_move(x, y, x + 2 * d, y);
    assert(state.is_castling(x, y, x + 2 * d, y));
    assert(next.pieces == second.pieces);
    assert(next.at(x + 2 * d, y) == second.at(x + 2 * d, y));
    assert(second.at(x + 2 * d, y) == first.at(x + 2 * d, y));
    assert(next.at(x + d, y) == second.at(x + d, y));
    assert(next.at(x, y) == second.at(x, y));
    assert(second.at(x, y) == first.at(x, y));
    assert(next.at(cx, y) == second.at(cx, y));
}

/// A capture in passing removes the pawn that was passed: after it the
/// capturing pawn stands on the square it went to, and both its old square
/// and the square beside that, in the file it moved into, are empty.
pub proof fn law_en_passant_removes_the_passed_pawn(
    state: BoardState,
    fx: int,
    fy: int,
    tx: int,
    ty: int,
)
    requires
        state.is_en_passant(fx, fy, tx, ty),
    ensures
        ({
            let next = state.after_move(fx, fy, tx, ty);
            &&& next.at(tx, ty) == Some(
                ChessPiece {
                    x: tx as u32,
                    y: ty as u32,
                    has_moved: true,
                    ..state.at(fx, fy).unwrap()
                },
            )
            &&& next.at(fx, fy) is None
            &&& next.at(tx, fy) is None
        }),
{
    lemma_relocate(state, fx, fy, tx, ty);
    let moved = state.relocate(fx, fy, tx, ty);
    let next = state.after_move(fx, fy, tx, ty);
    assert(next.pieces == moved.pieces.remove((tx, fy)));
    assert(next.at(tx, ty) == moved.at(tx, ty));
    assert(next.at(fx, fy) == moved.at(fx, fy));
}

} // verus!
