//! Board geometry over mathematical integers: which squares exist, which
//! pairs share a line, and which squares lie between two others.

use vstd::prelude::*;

verus! {

/// `(x, y)` is one of the 64 squares.
pub open spec fn on_board(x: int, y: int) -> bool {
    0 <= x < 8 && 0 <= y < 8
}

/// `t` lies strictly between `0` and `e`.
pub open spec fn strictly_inside(e: int, t: int) -> bool {
    (0 < t < e) || (e < t < 0)
}

/// Two distinct squares on one rank or one file.
pub open spec fn rook_line(ax: int, ay: int, bx: int, by: int) -> bool {
    (ax == bx) != (ay == by)
}

/// Two distinct squares on one diagonal.
pub open spec fn bishop_line(ax: int, ay: int, bx: int, by: int) -> bool {
    ax != bx && (bx - ax == by - ay || bx - ax == ay - by)
}

/// Two distinct squares on one rank, file or diagonal.
pub open spec fn queen_line(ax: int, ay: int, bx: int, by: int) -> bool {
    rook_line(ax, ay, bx, by) || bishop_line(ax, ay, bx, by)
}

/// `(sx, sy)` lies strictly between `(ax, ay)` and `(bx, by)` on the rank,
/// file or diagonal the two share.  False when they share none.
pub open spec fn between(ax: int, ay: int, sx: int, sy: int, bx: int, by: int) -> bool {
    let ex = bx - ax;
    let ey = by - ay;
    let tx = sx - ax;
    let ty = sy - ay;
    if ex == 0 {
        tx == 0 && strictly_inside(ey, ty)
    } else if ey == 0 {
        ty == 0 && strictly_inside(ex, tx)
    } else if ex == ey {
        tx == ty && strictly_inside(ex, tx)
    } else if ex == -ey {
        tx == -ty && strictly_inside(ex, tx)
    } else {
        false
    }
}

/// `(bx, by)` lies on the ray that leaves `(ax, ay)` in direction `(dx, dy)`,
/// where only the signs of `dx` and `dy` matter.
pub open spec fn on_ray(ax: int, ay: int, dx: int, dy: int, bx: int, by: int) -> bool {
    let ex = bx - ax;
    let ey = by - ay;
    &&& dx != 0 || dy != 0
    &&& if dx == 0 {
        ex == 0
    } else if dx > 0 {
        ex > 0
    } else {
        ex < 0
    }
    &&& if dy == 0 {
        ey == 0
    } else if dy > 0 {
        ey > 0
    } else {
        ey < 0
    }
    &&& dx != 0 && dy != 0 ==> ex == ey || ex == -ey
}

/// A knight's jump: one file and two ranks, or two files and one rank.
pub open spec fn knight_jump(ax: int, ay: int, bx: int, by: int) -> bool {
    let ex = bx - ax;
    let ey = by - ay;
    ((ex == 1 || ex == -1) && (ey == 2 || ey == -2)) || ((ex == 2 || ex == -2) && (ey == 1 || ey
        == -1))
}

/// A king's step: to one of the eight neighbouring squares.
pub open spec fn king_step(ax: int, ay: int, bx: int, by: int) -> bool {
    let ex = bx - ax;
    let ey = by - ay;
    -1 <= ex <= 1 && -1 <= ey <= 1 && (ex != 0 || ey != 0)
}

} // verus!
