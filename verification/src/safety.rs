//! Why a legal move leaves the mover's own king unattacked.

use vstd::prelude::*;
use crate::geometry::{between, on_board};
use crate::pieces::{ChessPiece, ChessPieceColour, ChessPieceKind};
use crate::squares::Move;
use crate::state::{scan_x, scan_y, BoardState};

verus! {

/// What `relocate` leaves on each square.
pub proof fn lemma_relocate(state: BoardState, fx: int, fy: int, tx: int, ty: int)
    requires
        state.at(fx, fy) is Some,
        fx != tx || fy != ty,
    ensures
        state.relocate(fx, fy, tx, ty).at(tx, ty) == Some(
            ChessPiece { x: tx as u32, y: ty as u32, has_moved: true, ..state.at(fx, fy).unwrap() },
        ),
        state.relocate(fx, fy, tx, ty).at(fx, fy) is None,
        forall|a: int, b: int|
            #![trigger state.relocate(fx, fy, tx, ty).at(a, b)]
            (a != fx || b != fy) && (a != tx || b != ty) ==> state.relocate(fx, fy, tx, ty).at(a, b)
                == state.at(a, b),
        state.relocate(fx, fy, tx, ty).last_move == state.last_move,
        state.relocate(fx, fy, tx, ty).check == state.check,
        state.wf() && on_board(tx, ty) ==> state.relocate(fx, fy, tx, ty).wf(),
{
    let new = state.relocate(fx, fy, tx, ty);
    assert forall|a: int, b: int| #![trigger new.at(a, b)] (a != fx || b != fy) && (a != tx || b
        != ty) implies new.at(a, b) == state.at(a, b) by {
        assert((a, b) != (fx, fy) && (a, b) != (tx, ty));
    }
    if state.wf() && on_board(tx, ty) {
        assert forall|a: int, b: int|
            #![trigger new.at(a, b)]
            new.at(a, b) is Some implies on_board(a, b) && new.at(a, b).unwrap().x == a && new.at(
            a,
            b,
        ).unwrap().y == b by {
            if (a != fx || b != fy) && (a != tx || b != ty) {
                assert(new.at(a, b) == state.at(a, b));
            }
        }
    }
}

/// Two positions that hold the pieces of one kind and colour on the same
/// squares find the same first such piece.
pub proof fn lemma_find_from_same(
    old_state: BoardState,
    new_state: BoardState,
    kind: ChessPieceKind,
    colour: ChessPieceColour,
    i: int,
)
    requires
        0 <= i,
        forall|x: int, y: int|
            #![trigger new_state.at(x, y)]
            on_board(x, y) ==> old_state.holds(x, y, kind, colour) == new_state.holds(
                x,
                y,
                kind,
                colour,
            ) && (old_state.holds(x, y, kind, colour) ==> new_state.at(x, y) == old_state.at(x, y)),
    ensures
        new_state.find_from(kind, colour, i) == old_state.find_from(kind, colour, i),
    decreases 64 - i,
{
    if i < 64 {
        lemma_find_from_same(old_state, new_state, kind, colour, i + 1);
        assert(on_board(scan_x(i), scan_y(i)));
        assert(old_state.holds(scan_x(i), scan_y(i), kind, colour) == new_state.holds(
            scan_x(i),
            scan_y(i),
            kind,
            colour,
        ));
    }
}

/// A candidate move of a piece other than a king lands on a square of the
/// board other than the piece's own, which is empty or holds an enemy.
pub proof fn lemma_candidate_target(state: BoardState, x: int, y: int, m: Move)
    requires
        state.at(x, y) matches Some(p) && p.kind != ChessPieceKind::King,
        state.candidate_moves(x, y).contains(m),
    ensures
        on_board(m.x as int, m.y as int),
        m.x != x || m.y != y,
        state.at(m.x as int, m.y as int) matches Some(q) ==> q.colour != state.at(
            x,
            y,
        ).unwrap().colour,
{
}

/// A legal move of a piece other than a king, other than a capture in
/// passing, leaves no piece attacking the mover's king, provided that the
/// check on the mover's side, if there is one, is the recorded one or one
/// that the move answers.
pub proof fn lemma_other_piece_keeps_king_safe(state: BoardState, x: int, y: int, m: Move)
    requires
        state.wf(),
        state.at(x, y) matches Some(p) && p.kind != ChessPieceKind::King,
        state.legal_moves(x, y).contains(m),
        !state.is_en_passant(x, y, m.x as int, m.y as int),
        state.in_check(state.at(x, y).unwrap().colour) ==> state.check == Some(
            state.at(x, y).unwrap().colour,
        ) || state.resolves_check(state.at(x, y).unwrap().colour, m.x as int, m.y as int),
    ensures
        !state.after_move(x, y, m.x as int, m.y as int).in_check(state.at(x, y).unwrap().colour),
{
    let p = state.at(x, y).unwrap();
    let c = p.colour;
    let bx = m.x as int;
    let by = m.y as int;
    lemma_candidate_target(state, x, y, m);
    lemma_relocate(state, x, y, bx, by);
    let moved = state.relocate(x, y, bx, by);
    let new = state.after_move(x, y, bx, by);
    assert(new.pieces == moved.pieces);
    assert forall|a: int, b: int| #![trigger new.at(a, b)] new.at(a, b) == moved.at(a, b) by {}
    assert forall|a: int, b: int| #![trigger new.at(a, b)] on_board(a, b) implies state.holds(
        a,
        b,
        ChessPieceKind::King,
        c,
    ) == new.holds(a, b, ChessPieceKind::King, c) && (state.holds(a, b, ChessPieceKind::King, c)
        ==> new.at(a, b) == state.at(a, b)) by {
        assert(new.at(a, b) == moved.at(a, b));
    }
    lemma_find_from_same(state, new, ChessPieceKind::King, c, 0);
    state.lemma_find_piece(ChessPieceKind::King, c);
    if new.in_check(c) {
        let q = choose|q: ChessPiece| new.is_attacker(c, q);
        let k = state.find_piece(ChessPieceKind::King, c).unwrap();
        let sx = q.x as int;
        let sy = q.y as int;
        let kx = k.x as int;
        let ky = k.y as int;
        assert(new.at(sx, sy) == moved.at(sx, sy));
        assert(state.at(sx, sy) == Some(q));
        assert(new.at(bx, by) == moved.at(bx, by));
        if !state.attacks(sx, sy, kx, ky) {
            assert(q.kind.spec_is_slider());
            assert(new.clear_between(sx, sy, kx, ky));
            assert(!state.clear_between(sx, sy, kx, ky));
            let (ux, uy) = choose|ux: int, uy: int|
                between(sx, sy, ux, uy, kx, ky) && state.at(ux, uy) is Some;
            assert(new.at(ux, uy) is None);
            assert(new.at(ux, uy) == moved.at(ux, uy));
            assert(ux == x && uy == y);
            assert forall|vx: int, vy: int| #[trigger]
                between(sx, sy, vx, vy, x, y) implies state.at(vx, vy) is None by {
                assert(between(sx, sy, vx, vy, kx, ky));
                assert(new.at(vx, vy) is None);
                assert(new.at(vx, vy) == moved.at(vx, vy));
            }
            assert forall|vx: int, vy: int| #[trigger]
                between(kx, ky, vx, vy, x, y) implies state.at(vx, vy) is None by {
                assert(between(sx, sy, vx, vy, kx, ky));
                assert(new.at(vx, vy) is None);
                assert(new.at(vx, vy) == moved.at(vx, vy));
            }
            assert(state.attacks(sx, sy, x, y));
            assert(between(kx, ky, x, y, sx, sy));
            assert(state.pins(kx, ky, sx, sy, x, y));
            assert(state.at(sx, sy) matches Some(s) && s.colour != p.colour
                && s.kind.spec_is_slider() && state.pins(kx, ky, sx, sy, x, y));
            assert(state.pinned(x, y));
            assert(false);
        }
        assert(state.is_attacker(c, q));
        assert(state.in_check(c));
        assert(state.resolves_check(c, bx, by));
        assert(between(sx, sy, bx, by, kx, ky));
        assert(new.at(bx, by) is Some);
        assert(false);
    }
}

/// Where a side has one king at most and a king of that side stands on
/// `(x, y)`, that king is the one `find_piece` finds.
pub proof fn lemma_the_king_is_found(state: BoardState, x: int, y: int)
    requires
        state.wf(),
        state.at(x, y) matches Some(p) && p.kind == ChessPieceKind::King,
        state.at_most_one_king(state.at(x, y).unwrap().colour),
    ensures
        state.find_piece(ChessPieceKind::King, state.at(x, y).unwrap().colour) == state.at(x, y),
{
    let c = state.at(x, y).unwrap().colour;
    state.lemma_find_piece(ChessPieceKind::King, c);
    assert(state.holds(x, y, ChessPieceKind::King, c));
    if let Some(k) = state.find_piece(ChessPieceKind::King, c) {
        assert(state.holds(k.x as int, k.y as int, ChessPieceKind::King, c));
    }
}

/// A king's step onto a square that the other side does not threaten, and
/// that is no step straight away from an attacking slider, leaves no piece
/// attacking the king.
pub proof fn lemma_king_step_keeps_king_safe(state: BoardState, x: int, y: int, m: Move)
    requires
        state.wf(),
        state.at(x, y) matches Some(p) && p.kind == ChessPieceKind::King,
        state.at_most_one_king(state.at(x, y).unwrap().colour),
        crate::geometry::king_step(x, y, m.x as int, m.y as int),
        state.playable(state.at(x, y).unwrap().colour, m),
        !state.threatened_by(
            state.at(x, y).unwrap().colour.spec_opposite(),
            m.x as int,
            m.y as int,
        ),
        !state.retreats_from_slider(x, y, m.x as int, m.y as int),
    ensures
        !state.after_move(x, y, m.x as int, m.y as int).in_check(state.at(x, y).unwrap().colour),
{
    let p = state.at(x, y).unwrap();
    let c = p.colour;
    let bx = m.x as int;
    let by = m.y as int;
    lemma_relocate(state, x, y, bx, by);
    let moved = state.relocate(x, y, bx, by);
    let new = state.after_move(x, y, bx, by);
    assert(new.pieces == moved.pieces);
    assert forall|a: int, b: int| #![trigger new.at(a, b)] new.at(a, b) == moved.at(a, b) by {}
    moved.lemma_wf_by_pieces(new);
    let king = new.at(bx, by).unwrap();
    assert(new.at(bx, by) == moved.at(bx, by));
    assert forall|x1: int, y1: int, x2: int, y2: int|
        #![trigger new.at(x1, y1), new.at(x2, y2)]
        new.holds(x1, y1, ChessPieceKind::King, c) && new.holds(
            x2,
            y2,
            ChessPieceKind::King,
            c,
        ) implies x1 == x2 && y1 == y2 by {
        assert(new.at(x1, y1) == moved.at(x1, y1));
        assert(new.at(x2, y2) == moved.at(x2, y2));
        if x1 != bx || y1 != by {
            assert(state.holds(x1, y1, ChessPieceKind::King, c));
            assert(state.holds(x, y, ChessPieceKind::King, c));
        }
        if x2 != bx || y2 != by {
            assert(state.holds(x2, y2, ChessPieceKind::King, c));
            assert(state.holds(x, y, ChessPieceKind::King, c));
        }
    }
    lemma_the_king_is_found(new, bx, by);
    if new.in_check(c) {
        let q = choose|q: ChessPiece| new.is_attacker(c, q);
        let sx = q.x as int;
        let sy = q.y as int;
        assert(new.at(sx, sy) == moved.at(sx, sy));
        assert(state.at(sx, sy) == Some(q));
        assert(q.colour == c.spec_opposite());
        if !state.attacks(sx, sy, bx, by) {
            assert(q.kind.spec_is_slider());
            assert(new.clear_between(sx, sy, bx, by));
            assert(!state.clear_between(sx, sy, bx, by));
            let (ux, uy) = choose|ux: int, uy: int|
                between(sx, sy, ux, uy, bx, by) && state.at(ux, uy) is Some;
            assert(new.at(ux, uy) is None);
            assert(new.at(ux, uy) == moved.at(ux, uy));
            assert(ux == x && uy == y);
            assert forall|vx: int, vy: int| #[trigger]
                between(sx, sy, vx, vy, x, y) implies state.at(vx, vy) is None by {
                assert(between(sx, sy, vx, vy, bx, by));
                assert(new.at(vx, vy) is None);
                assert(new.at(vx, vy) == moved.at(vx, vy));
            }
            assert(state.attacks(sx, sy, x, y));
            assert(state.at(sx, sy) matches Some(s) && s.kind.spec_is_slider() && (state.at(
                x,
                y,
            ) matches Some(own) && own.colour != s.colour) && state.attacks(sx, sy, x, y)
                && between(sx, sy, x, y, bx, by));
            assert(state.retreats_from_slider(x, y, bx, by));
            assert(false);
        }
        assert(state.at(sx, sy) matches Some(s) && s.colour == c.spec_opposite() && state.attacks(
            sx,
            sy,
            bx,
            by,
        ));
        assert(state.threatened_by(c.spec_opposite(), bx, by));
        assert(false);
    }
}

/// A castling move leaves no piece attacking the king.
pub proof fn lemma_castling_keeps_king_safe(state: BoardState, x: int, y: int, d: int, m: Move)
    requires
        state.wf(),
        state.at(x, y) matches Some(p) && p.kind == ChessPieceKind::King,
        state.at_most_one_king(state.at(x, y).unwrap().colour),
        d == 1 || d == -1,
        BoardState::castling_move(x, y, d, m),
        state.may_castle(
            x,
            y,
            state.at(x, y).unwrap().colour,
            state.at(x, y).unwrap().has_moved,
            d,
        ),
    ensures
        !state.after_move(x, y, m.x as int, m.y as int).in_check(state.at(x, y).unwrap().colour),
{
    let p = state.at(x, y).unwrap();
    let c = p.colour;
    let bx = x + 2 * d;
    let by = y;
    let ex = x + d;
    let cx = BoardState::corner_file(d);
    assert(m.x as int == bx && m.y as int == by);
    assert(state.at(bx, y) is None);
    assert(state.at(ex, y) is None);
    lemma_relocate(state, x, y, bx, by);
    let first = state.relocate(x, y, bx, by);
    assert(first.at(cx, y) == state.at(cx, y));
    lemma_relocate(first, cx, y, ex, y);
    let second = first.relocate(cx, y, ex, y);
    let new = state.after_move(x, y, bx, by);
    assert(state.is_castling(x, y, bx, by));
    assert(new.pieces == second.pieces);
    assert forall|a: int, b: int| #![trigger new.at(a, b)] new.at(a, b) == second.at(a, b) by {}
    second.lemma_wf_by_pieces(new);
    assert forall|a: int, b: int|
        #![trigger new.at(a, b)]
        (a != x || b != y) && (a != bx || b != y) && (a != ex || b != y) && (a != cx || b
            != y) implies new.at(a, b) == state.at(a, b) by {
        assert(new.at(a, b) == second.at(a, b));
        assert(second.at(a, b) == first.at(a, b));
        assert(first.at(a, b) == state.at(a, b));
    }
    assert(new.at(bx, by) == second.at(bx, by));
    assert(second.at(bx, by) == first.at(bx, by));
    assert(new.at(ex, y) == second.at(ex, y));
    assert(new.at(x, y) == second.at(x, y));
    assert(second.at(x, y) == first.at(x, y));
    assert(new.at(cx, y) == second.at(cx, y));
    assert forall|x1: int, y1: int, x2: int, y2: int|
        #![trigger new.at(x1, y1), new.at(x2, y2)]
        new.holds(x1, y1, ChessPieceKind::King, c) && new.holds(
            x2,
            y2,
            ChessPieceKind::King,
            c,
        ) implies x1 == x2 && y1 == y2 by {
        if x1 != bx || y1 != by {
            assert(new.at(x1, y1) == state.at(x1, y1));
            assert(state.holds(x1, y1, ChessPieceKind::King, c));
            assert(state.holds(x, y, ChessPieceKind::King, c));
        }
        if x2 != bx || y2 != by {
            assert(new.at(x2, y2) == state.at(x2, y2));
            assert(state.holds(x2, y2, ChessPieceKind::King, c));
            assert(state.holds(x, y, ChessPieceKind::King, c));
        }
    }
    lemma_the_king_is_found(new, bx, by);
    if new.in_check(c) {
        let q = choose|q: ChessPiece| new.is_attacker(c, q);
        let sx = q.x as int;
        let sy = q.y as int;
        assert(new.at(sx, sy) == state.at(sx, sy));
        assert(state.at(sx, sy) == Some(q));
        assert(on_board(sx, sy));
        assert(q.colour == c.spec_opposite());
        if !state.attacks(sx, sy, bx, by) {
            assert(q.kind.spec_is_slider());
            assert(new.clear_between(sx, sy, bx, by));
            assert(!state.clear_between(sx, sy, bx, by));
            let (ux, uy) = choose|ux: int, uy: int|
                between(sx, sy, ux, uy, bx, by) && state.at(ux, uy) is Some;
            assert(new.at(ux, uy) is None);
            if ux == x && uy == y {
                assert(between(sx, sy, ex, y, bx, by));
                assert(new.at(ex, y) is Some);
                assert(false);
            }
            if ux == cx && uy == y {
                assert(false);
            }
            assert(new.at(ux, uy) == state.at(ux, uy));
            assert(false);
        }
        assert(state.at(sx, sy) matches Some(s) && s.colour == c.spec_opposite() && state.attacks(
            sx,
            sy,
            bx,
            by,
        ));
        assert(state.threatened_by(c.spec_opposite(), bx, by));
        assert(BoardState::towards_corner(x, d, bx));
        assert(state.at(bx, y) is None);
        assert(false);
    }
}

/// A legal capture in passing that opens no line to the mover's king leaves
/// no piece attacking that king, provided that the check on the mover's
/// side, if there is one, is the recorded one or one that the move answers.
pub proof fn lemma_en_passant_keeps_king_safe(state: BoardState, x: int, y: int, m: Move)
    requires
        state.wf(),
        state.at(x, y) is Some,
        state.legal_moves(x, y).contains(m),
        state.is_en_passant(x, y, m.x as int, m.y as int),
        !state.en_passant_exposes(x, y, m.x as int, m.y as int),
        state.in_check(state.at(x, y).unwrap().colour) ==> state.check == Some(
            state.at(x, y).unwrap().colour,
        ) || state.resolves_check(state.at(x, y).unwrap().colour, m.x as int, m.y as int),
    ensures
        !state.after_move(x, y, m.x as int, m.y as int).in_check(state.at(x, y).unwrap().colour),
{
    let p = state.at(x, y).unwrap();
    let c = p.colour;
    let bx = m.x as int;
    let by = m.y as int;
    lemma_candidate_target(state, x, y, m);
    lemma_relocate(state, x, y, bx, by);
    let moved = state.relocate(x, y, bx, by);
    let new = state.after_move(x, y, bx, by);
    assert(!state.is_castling(x, y, bx, by));
    assert(new.pieces == moved.pieces.remove((bx, y)));
    assert(state.en_passant(x, y, c, m));
    assert forall|a: int, b: int| #![trigger new.at(a, b)] new.at(a, b) == (if a == bx && b == y {
        None
    } else {
        moved.at(a, b)
    }) by {
        assert((a, b) == (bx, y) <==> a == bx && b == y);
    }
    assert forall|a: int, b: int| #![trigger new.at(a, b)] on_board(a, b) implies state.holds(
        a,
        b,
        ChessPieceKind::King,
        c,
    ) == new.holds(a, b, ChessPieceKind::King, c) && (state.holds(a, b, ChessPieceKind::King, c)
        ==> new.at(a, b) == state.at(a, b)) by {
        assert(new.at(a, b) == (if a == bx && b == y {
            None
        } else {
            moved.at(a, b)
        }));
    }
    lemma_find_from_same(state, new, ChessPieceKind::King, c, 0);
    state.lemma_find_piece(ChessPieceKind::King, c);
    if new.in_check(c) {
        let q = choose|q: ChessPiece| new.is_attacker(c, q);
        let k = state.find_piece(ChessPieceKind::King, c).unwrap();
        let sx = q.x as int;
        let sy = q.y as int;
        let kx = k.x as int;
        let ky = k.y as int;
        assert(new.at(sx, sy) == moved.at(sx, sy));
        assert(state.at(sx, sy) == Some(q));
        assert(new.at(bx, by) == moved.at(bx, by));
        if !state.attacks(sx, sy, kx, ky) {
            assert(q.kind.spec_is_slider());
            assert(new.clear_between(sx, sy, kx, ky));
            assert(BoardState::slides_along(q.kind, sx, sy, kx, ky));
            assert forall|vx: int, vy: int| #[trigger]
                between(sx, sy, vx, vy, kx, ky) && (vx != x || vy != y) && (vx != bx || vy
                    != y) implies state.at(vx, vy) is None by {
                assert(new.at(vx, vy) is None);
                assert(new.at(vx, vy) == moved.at(vx, vy));
            }
            if between(sx, sy, bx, by, kx, ky) {
                assert(new.at(bx, by) is None);
                assert(false);
            }
            if between(sx, sy, bx, y, kx, ky) {
                assert(state.at(sx, sy) matches Some(s) && s.colour != p.colour
                    && BoardState::slides_along(s.kind, sx, sy, kx, ky) && between(
                    sx,
                    sy,
                    bx,
                    y,
                    kx,
                    ky,
                ) && !between(sx, sy, bx, by, kx, ky) && forall|vx: int, vy: int| #[trigger]
                    between(sx, sy, vx, vy, kx, ky) && (vx != x || vy != y) && (vx != bx || vy
                        != y) ==> state.at(vx, vy) is None);
                assert(state.en_passant_exposes(x, y, bx, by));
                assert(false);
            }
            assert(!state.clear_between(sx, sy, kx, ky));
            let (ux, uy) = choose|ux: int, uy: int|
                between(sx, sy, ux, uy, kx, ky) && state.at(ux, uy) is Some;
            assert(ux == x && uy == y);
            assert forall|vx: int, vy: int| #[trigger]
                between(sx, sy, vx, vy, x, y) implies state.at(vx, vy) is None by {
                assert(between(sx, sy, vx, vy, kx, ky));
            }
            assert forall|vx: int, vy: int| #[trigger]
                between(kx, ky, vx, vy, x, y) implies state.at(vx, vy) is None by {
                assert(between(sx, sy, vx, vy, kx, ky));
            }
            assert(state.attacks(sx, sy, x, y));
            assert(between(kx, ky, x, y, sx, sy));
            assert(state.pins(kx, ky, sx, sy, x, y));
            assert(state.at(sx, sy) matches Some(s) && s.colour != p.colour
                && s.kind.spec_is_slider() && state.pins(kx, ky, sx, sy, x, y));
            assert(state.pinned(x, y));
            assert(false);
        }
        assert(state.is_attacker(c, q));
        assert(state.in_check(c));
        assert(state.resolves_check(c, bx, by));
        assert(between(sx, sy, bx, by, kx, ky));
        assert(new.at(bx, by) is Some);
        assert(false);
    }
}

/// A legal move leaves no piece attacking the mover's own king, where: the
/// mover's side has one king at most; a capture in passing opens no line to
/// the king; a king does not step straight away from a slider that attacks
/// it; and, for a piece other than the king, the check on its side, if there
/// is one, is the recorded one or one that the move answers.
pub proof fn law_legal_move_keeps_king_safe(state: BoardState, x: int, y: int, m: Move)
    requires
        state.wf(),
        state.at(x, y) is Some,
        state.legal_moves(x, y).contains(m),
        state.at_most_one_king(state.at(x, y).unwrap().colour),
        state.is_en_passant(x, y, m.x as int, m.y as int) ==> !state.en_passant_exposes(
            x,
            y,
            m.x as int,
            m.y as int,
        ),
        state.at(x, y).unwrap().kind == ChessPieceKind::King ==> !state.retreats_from_slider(
            x,
            y,
            m.x as int,
            m.y as int,
        ),
        state.at(x, y).unwrap().kind != ChessPieceKind::King && state.in_check(
            state.at(x, y).unwrap().colour,
        ) ==> state.check == Some(state.at(x, y).unwrap().colour) || state.resolves_check(
            state.at(x, y).unwrap().colour,
            m.x as int,
            m.y as int,
        ),
    ensures
        !state.after_move(x, y, m.x as int, m.y as int).in_check(state.at(x, y).unwrap().colour),
{
    let p = state.at(x, y).unwrap();
    if p.kind != ChessPieceKind::King {
        if state.is_en_passant(x, y, m.x as int, m.y as int) {
            lemma_en_passant_keeps_king_safe(state, x, y, m);
        } else {
            lemma_other_piece_keeps_king_safe(state, x, y, m);
        }
    } else if BoardState::castling_move(x, y, 1, m) && state.may_castle(
        x,
        y,
        p.colour,
        p.has_moved,
        1,
    ) {
        lemma_castling_keeps_king_safe(state, x, y, 1, m);
    } else if BoardState::castling_move(x, y, -1, m) && state.may_castle(
        x,
        y,
        p.colour,
        p.has_moved,
        -1,
    ) {
        lemma_castling_keeps_king_safe(state, x, y, -1, m);
    } else {
        lemma_king_step_keeps_king_safe(state, x, y, m);
    }
}

} // verus!
