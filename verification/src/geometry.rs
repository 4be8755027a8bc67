//! Axis-aligned box geometry for the simulation, in quarter units.
//!
//! A cell is four quarters wide; players, flags and walls are all unit
//! (four-quarter) boxes. A position names the top-left corner of a box.

use vstd::prelude::*;

verus! {

/// Largest legal x position in quarters: the arena is 28 cells wide and a
/// player box is one cell, so the left edge ranges over [0, 27] cells.
pub const X_MAX: i32 = 108;

/// Largest legal y position in quarters: the arena is 14 cells high.
pub const Y_MAX: i32 = 52;

/// Clamp `v` into [0, hi].
pub open spec fn clamp(v: int, hi: int) -> int {
    if v < 0 {
        0
    } else if v > hi {
        hi
    } else {
        v
    }
}

/// Whether the unit boxes with top-left corners (ax, ay) and (bx, by)
/// overlap with positive area.
pub open spec fn boxes_overlap(ax: int, ay: int, bx: int, by: int) -> bool {
    ax < bx + 4 && bx < ax + 4 && ay < by + 4 && by < ay + 4
}

/// Minimum-translation resolution of the player box at (x, y) against the
/// wall box at (wqx, wqy) (both in quarters). On overlap the player is
/// pushed out along the axis of minimum edge overlap, snapping the pushed
/// coordinate to the wall's edge; ties prefer left, then right, then top.
/// The pushed coordinate is clamped to the hard arena boundary.
pub open spec fn resolve_wall(x: int, y: int, wqx: int, wqy: int) -> (int, int) {
    if boxes_overlap(x, y, wqx, wqy) {
        let left = x + 4 - wqx;
        let right = wqx + 4 - x;
        let top = y + 4 - wqy;
        let bottom = wqy + 4 - y;
        if left <= right && left <= top && left <= bottom {
            (clamp(wqx - 4, X_MAX as int), y)
        } else if right <= top && right <= bottom {
            (clamp(wqx + 4, X_MAX as int), y)
        } else if top <= bottom {
            (x, clamp(wqy - 4, Y_MAX as int))
        } else {
            (x, clamp(wqy + 4, Y_MAX as int))
        }
    } else {
        (x, y)
    }
}

/// Fold of `resolve_wall` over the wall cells from index `k` on, in list
/// order; wall coordinates are given in cells and scaled to quarters here.
pub open spec fn resolve_walls_from(
    x: int,
    y: int,
    wx: Seq<i32>,
    wy: Seq<i32>,
    k: int,
) -> (int, int)
    decreases wx.len() - k,
{
    if k < 0 || k >= wx.len() || wx.len() != wy.len() {
        (x, y)
    } else {
        let p = resolve_wall(x, y, 4 * wx[k], 4 * wy[k]);
        resolve_walls_from(p.0, p.1, wx, wy, k + 1)
    }
}

/// Resolution of the player box at (x, y) against every wall cell in order.
pub open spec fn resolve_walls(x: int, y: int, wx: Seq<i32>, wy: Seq<i32>) -> (int, int) {
    resolve_walls_from(x, y, wx, wy, 0)
}

/// One wall resolution keeps a position inside the arena.
pub proof fn lemma_resolve_wall_bounds(x: int, y: int, wqx: int, wqy: int)
    requires
        0 <= x <= X_MAX,
        0 <= y <= Y_MAX,
    ensures
        0 <= resolve_wall(x, y, wqx, wqy).0 <= X_MAX,
        0 <= resolve_wall(x, y, wqx, wqy).1 <= Y_MAX,
{
}

/// Resolution against a whole wall list keeps a position inside the arena.
pub proof fn lemma_resolve_walls_from_bounds(x: int, y: int, wx: Seq<i32>, wy: Seq<i32>, k: int)
    requires
        0 <= x <= X_MAX,
        0 <= y <= Y_MAX,
    ensures
        0 <= resolve_walls_from(x, y, wx, wy, k).0 <= X_MAX,
        0 <= resolve_walls_from(x, y, wx, wy, k).1 <= Y_MAX,
    decreases wx.len() - k,
{
    if k < 0 || k >= wx.len() || wx.len() != wy.len() {
    } else {
        let p = resolve_wall(x, y, 4 * wx[k], 4 * wy[k]);
        lemma_resolve_wall_bounds(x, y, 4 * wx[k], 4 * wy[k]);
        lemma_resolve_walls_from_bounds(p.0, p.1, wx, wy, k + 1);
    }
}

/// A position whose box overlaps no wall is left exactly where it is by the
/// resolution pass.
pub proof fn lemma_resolve_walls_from_clear(x: int, y: int, wx: Seq<i32>, wy: Seq<i32>, k: int)
    requires
        forall|l: int|
            0 <= l < wx.len() ==> !boxes_overlap(x, y, 4 * #[trigger] wx[l], 4 * wy[l]),
    ensures
        resolve_walls_from(x, y, wx, wy, k) == (x, y),
    decreases wx.len() - k,
{
    if k < 0 || k >= wx.len() || wx.len() != wy.len() {
    } else {
        lemma_resolve_walls_from_clear(x, y, wx, wy, k + 1);
    }
}

/// Whether the box at (x, y) overlaps no wall cell of the list.
pub open spec fn clear_of_walls(x: int, y: int, wx: Seq<i32>, wy: Seq<i32>) -> bool {
    forall|l: int| 0 <= l < wx.len() ==> !boxes_overlap(x, y, 4 * #[trigger] wx[l], 4 * wy[l])
}

/// Moving one quarter right from a wall-clear position, the resolution
/// pass either finds the new position clear or pushes it straight back:
/// the only walls the moved box can touch stand exactly against the old
/// box's right edge, and their minimum edge overlap is that one quarter.
pub proof fn lemma_resolve_right_clear(x0: int, y0: int, wx: Seq<i32>, wy: Seq<i32>, k: int)
    requires
        wx.len() == wy.len(),
        0 <= x0,
        x0 + 1 <= X_MAX as int,
        0 <= y0 <= Y_MAX as int,
        clear_of_walls(x0, y0, wx, wy),
        0 <= k <= wx.len(),
    ensures
        ({
            let r = resolve_walls_from(x0 + 1, y0, wx, wy, k);
            (r == (x0 + 1, y0) && forall|l: int|
                k <= l < wx.len() ==> !boxes_overlap(x0 + 1, y0, 4 * #[trigger] wx[l], 4 * wy[l]))
                || r == (x0, y0)
        }),
    decreases wx.len() - k,
{
    if k < wx.len() {
        let wqx = 4 * wx[k];
        let wqy = 4 * wy[k];
        if boxes_overlap(x0 + 1, y0, wqx, wqy) {
            assert(!boxes_overlap(x0, y0, wqx, wqy));
            assert(wqx == x0 + 4);
            assert(resolve_wall(x0 + 1, y0, wqx, wqy) == (x0, y0));
            lemma_resolve_walls_from_clear(x0, y0, wx, wy, k + 1);
        } else {
            lemma_resolve_right_clear(x0, y0, wx, wy, k + 1);
        }
    }
}

/// The mirror image of `lemma_resolve_right_clear` for a move to the left.
pub proof fn lemma_resolve_left_clear(x0: int, y0: int, wx: Seq<i32>, wy: Seq<i32>, k: int)
    requires
        wx.len() == wy.len(),
        1 <= x0 <= X_MAX as int,
        0 <= y0 <= Y_MAX as int,
        clear_of_walls(x0, y0, wx, wy),
        0 <= k <= wx.len(),
    ensures
        ({
            let r = resolve_walls_from(x0 - 1, y0, wx, wy, k);
            (r == (x0 - 1, y0) && forall|l: int|
                k <= l < wx.len() ==> !boxes_overlap(x0 - 1, y0, 4 * #[trigger] wx[l], 4 * wy[l]))
                || r == (x0, y0)
        }),
    decreases wx.len() - k,
{
    if k < wx.len() {
        let wqx = 4 * wx[k];
        let wqy = 4 * wy[k];
        if boxes_overlap(x0 - 1, y0, wqx, wqy) {
            assert(!boxes_overlap(x0, y0, wqx, wqy));
            assert(wqx == x0 - 4);
            assert(resolve_wall(x0 - 1, y0, wqx, wqy) == (x0, y0));
            lemma_resolve_walls_from_clear(x0, y0, wx, wy, k + 1);
        } else {
            lemma_resolve_left_clear(x0, y0, wx, wy, k + 1);
        }
    }
}

/// After a sideways push onto a cell-aligned column, the only wall the
/// box can still meet is the one directly below it; resolving there pushes
/// the box back up onto its old row, which is clear.
proof fn lemma_resolve_down_sibling(
    x0: int,
    y0: int,
    xa: int,
    wx: Seq<i32>,
    wy: Seq<i32>,
    k: int,
)
    requires
        wx.len() == wy.len(),
        xa % 4 == 0,
        y0 % 4 == 0,
        0 <= xa <= X_MAX as int,
        0 <= y0,
        y0 + 1 <= Y_MAX as int,
        clear_of_walls(x0, y0, wx, wy),
        x0 < xa + 4,
        xa < x0 + 4,
        0 <= k <= wx.len(),
        forall|l: int| 0 <= l < k ==> !boxes_overlap(xa, y0 + 1, 4 * #[trigger] wx[l], 4 * wy[l]),
    ensures
        ({
            let r = resolve_walls_from(xa, y0 + 1, wx, wy, k);
            clear_of_walls(r.0, r.1, wx, wy)
        }),
    decreases wx.len() - k,
{
    if k >= wx.len() {
        assert(clear_of_walls(xa, y0 + 1, wx, wy));
    } else {
        let wqx = 4 * wx[k];
        let wqy = 4 * wy[k];
        if !boxes_overlap(xa, y0 + 1, wqx, wqy) {
            lemma_resolve_down_sibling(x0, y0, xa, wx, wy, k + 1);
        } else {
            let ca = xa / 4;
            assert(xa == 4 * ca);
            assert(wqx == xa) by {
                assert(4 * (ca - 1) < 4 * wx[k] < 4 * (ca + 1));
            }
            let rq = y0 / 4;
            assert(y0 == 4 * rq);
            assert(wqy == y0 || wqy == y0 + 4) by {
                assert(4 * (rq - 1) < 4 * wy[k] < 4 * (rq + 2));
            }
            if wqy == y0 {
                // a wall exactly in the old row would have overlapped the
                // old box, which is clear
                assert(boxes_overlap(x0, y0, wqx, wqy));
                assert(false);
            }
            assert(resolve_wall(xa, y0 + 1, wqx, wqy) == (xa, y0));
            assert forall|l: int|
                0 <= l < wx.len() implies !boxes_overlap(
                xa,
                y0,
                4 * #[trigger] wx[l],
                4 * wy[l],
            ) by {
                if boxes_overlap(xa, y0, 4 * wx[l], 4 * wy[l]) {
                    assert(4 * wx[l] == xa) by {
                        assert(4 * (ca - 1) < 4 * wx[l] < 4 * (ca + 1));
                    }
                    assert(4 * wy[l] == y0) by {
                        assert(4 * (rq - 1) < 4 * wy[l] < 4 * (rq + 1));
                    }
                    assert(boxes_overlap(x0, y0, 4 * wx[l], 4 * wy[l]));
                }
            }
            lemma_resolve_walls_from_clear(xa, y0, wx, wy, k + 1);
        }
    }
}

/// Moving one quarter down from a wall-clear position, the resolution
/// pass ends wall-clear: every wall the moved box meets stands exactly
/// against the old box's bottom edge; its minimum edge overlap is either
/// the one quarter of descent, pushing the box back up, or a one-quarter
/// corner clip, pushing the box sideways onto the cell-aligned column
/// where `lemma_resolve_down_sibling` finishes the argument.
pub proof fn lemma_resolve_down_clear(x0: int, y0: int, wx: Seq<i32>, wy: Seq<i32>, k: int)
    requires
        wx.len() == wy.len(),
        0 <= x0 <= X_MAX as int,
        0 <= y0,
        y0 + 1 <= Y_MAX as int,
        clear_of_walls(x0, y0, wx, wy),
        0 <= k <= wx.len(),
        forall|l: int| 0 <= l < k ==> !boxes_overlap(x0, y0 + 1, 4 * #[trigger] wx[l], 4 * wy[l]),
    ensures
        ({
            let r = resolve_walls_from(x0, y0 + 1, wx, wy, k);
            clear_of_walls(r.0, r.1, wx, wy)
        }),
    decreases wx.len() - k,
{
    if k >= wx.len() {
        assert(clear_of_walls(x0, y0 + 1, wx, wy));
    } else {
        let wqx = 4 * wx[k];
        let wqy = 4 * wy[k];
        if !boxes_overlap(x0, y0 + 1, wqx, wqy) {
            lemma_resolve_down_clear(x0, y0, wx, wy, k + 1);
        } else {
            assert(!boxes_overlap(x0, y0, wqx, wqy));
            assert(wqy == y0 + 4);
            assert(y0 == 4 * (wy[k] - 1));
            let a = x0 % 4;
            let cq = x0 / 4;
            assert(x0 == 4 * cq + a && 0 <= a < 4);
            assert(wqx == 4 * cq || wqx == 4 * cq + 4) by {
                assert(4 * (cq - 1) < 4 * wx[k] < 4 * (cq + 2));
            }
            if a == 0 {
                assert(wqx == x0);
                assert(resolve_wall(x0, y0 + 1, wqx, wqy) == (x0, y0));
                lemma_resolve_walls_from_clear(x0, y0, wx, wy, k + 1);
            } else if wqx == 4 * cq && a == 3 {
                // corner clip on the wall's right edge: pushed right onto
                // the next cell boundary
                assert(resolve_wall(x0, y0 + 1, wqx, wqy) == (x0 + 1, y0 + 1));
                assert forall|l: int|
                    0 <= l < k + 1 implies !boxes_overlap(
                    x0 + 1,
                    y0 + 1,
                    4 * #[trigger] wx[l],
                    4 * wy[l],
                ) by {
                    if boxes_overlap(x0 + 1, y0 + 1, 4 * wx[l], 4 * wy[l]) {
                        assert(l < k ==> boxes_overlap(x0, y0 + 1, 4 * wx[l], 4 * wy[l]));
                        assert(l == k ==> 4 * wx[l] < x0 + 1 + 4 && x0 + 1 < 4 * wx[l] + 4);
                    }
                }
                lemma_resolve_down_sibling(x0, y0, x0 + 1, wx, wy, k + 1);
            } else if wqx == 4 * cq + 4 && a == 1 {
                // corner clip on the wall's left edge: pushed left onto
                // the previous cell boundary
                assert(resolve_wall(x0, y0 + 1, wqx, wqy) == (x0 - 1, y0 + 1));
                assert forall|l: int|
                    0 <= l < k + 1 implies !boxes_overlap(
                    x0 - 1,
                    y0 + 1,
                    4 * #[trigger] wx[l],
                    4 * wy[l],
                ) by {
                    if boxes_overlap(x0 - 1, y0 + 1, 4 * wx[l], 4 * wy[l]) {
                        assert(l < k ==> boxes_overlap(x0, y0 + 1, 4 * wx[l], 4 * wy[l]));
                        assert(l == k ==> 4 * wx[l] < x0 - 1 + 4 && x0 - 1 < 4 * wx[l] + 4);
                    }
                }
                lemma_resolve_down_sibling(x0, y0, x0 - 1, wx, wy, k + 1);
            } else {
                assert(resolve_wall(x0, y0 + 1, wqx, wqy) == (x0, y0));
                lemma_resolve_walls_from_clear(x0, y0, wx, wy, k + 1);
            }
        }
    }
}

/// The mirror image of `lemma_resolve_down_sibling` for a move up.
proof fn lemma_resolve_up_sibling(x0: int, y0: int, xa: int, wx: Seq<i32>, wy: Seq<i32>, k: int)
    requires
        wx.len() == wy.len(),
        xa % 4 == 0,
        y0 % 4 == 0,
        0 <= xa <= X_MAX as int,
        1 <= y0 <= Y_MAX as int,
        clear_of_walls(x0, y0, wx, wy),
        x0 < xa + 4,
        xa < x0 + 4,
        0 <= k <= wx.len(),
        forall|l: int| 0 <= l < k ==> !boxes_overlap(xa, y0 - 1, 4 * #[trigger] wx[l], 4 * wy[l]),
    ensures
        ({
            let r = resolve_walls_from(xa, y0 - 1, wx, wy, k);
            clear_of_walls(r.0, r.1, wx, wy)
        }),
    decreases wx.len() - k,
{
    if k >= wx.len() {
        assert(clear_of_walls(xa, y0 - 1, wx, wy));
    } else {
        let wqx = 4 * wx[k];
        let wqy = 4 * wy[k];
        if !boxes_overlap(xa, y0 - 1, wqx, wqy) {
            lemma_resolve_up_sibling(x0, y0, xa, wx, wy, k + 1);
        } else {
            let ca = xa / 4;
            assert(xa == 4 * ca);
            assert(wqx == xa) by {
                assert(4 * (ca - 1) < 4 * wx[k] < 4 * (ca + 1));
            }
            let rq = y0 / 4;
            assert(y0 == 4 * rq);
            assert(wqy == y0 || wqy == y0 - 4) by {
                assert(4 * (rq - 2) < 4 * wy[k] < 4 * (rq + 1));
            }
            if wqy == y0 {
                assert(boxes_overlap(x0, y0, wqx, wqy));
                assert(false);
            }
            assert(resolve_wall(xa, y0 - 1, wqx, wqy) == (xa, y0));
            assert forall|l: int|
                0 <= l < wx.len() implies !boxes_overlap(
                xa,
                y0,
                4 * #[trigger] wx[l],
                4 * wy[l],
            ) by {
                if boxes_overlap(xa, y0, 4 * wx[l], 4 * wy[l]) {
                    assert(4 * wx[l] == xa) by {
                        assert(4 * (ca - 1) < 4 * wx[l] < 4 * (ca + 1));
                    }
                    assert(4 * wy[l] == y0) by {
                        assert(4 * (rq - 1) < 4 * wy[l] < 4 * (rq + 1));
                    }
                    assert(boxes_overlap(x0, y0, 4 * wx[l], 4 * wy[l]));
                }
            }
            lemma_resolve_walls_from_clear(xa, y0, wx, wy, k + 1);
        }
    }
}

/// The mirror image of `lemma_resolve_down_clear` for a move up.
pub proof fn lemma_resolve_up_clear(x0: int, y0: int, wx: Seq<i32>, wy: Seq<i32>, k: int)
    requires
        wx.len() == wy.len(),
        0 <= x0 <= X_MAX as int,
        1 <= y0 <= Y_MAX as int,
        clear_of_walls(x0, y0, wx, wy),
        0 <= k <= wx.len(),
        forall|l: int| 0 <= l < k ==> !boxes_overlap(x0, y0 - 1, 4 * #[trigger] wx[l], 4 * wy[l]),
    ensures
        ({
            let r = resolve_walls_from(x0, y0 - 1, wx, wy, k);
            clear_of_walls(r.0, r.1, wx, wy)
        }),
    decreases wx.len() - k,
{
    if k >= wx.len() {
        assert(clear_of_walls(x0, y0 - 1, wx, wy));
    } else {
        let wqx = 4 * wx[k];
        let wqy = 4 * wy[k];
        if !boxes_overlap(x0, y0 - 1, wqx, wqy) {
            lemma_resolve_up_clear(x0, y0, wx, wy, k + 1);
        } else {
            assert(!boxes_overlap(x0, y0, wqx, wqy));
            assert(wqy == y0 - 4);
            assert(y0 == 4 * (wy[k] + 1));
            let a = x0 % 4;
            let cq = x0 / 4;
            assert(x0 == 4 * cq + a && 0 <= a < 4);
            assert(wqx == 4 * cq || wqx == 4 * cq + 4) by {
                assert(4 * (cq - 1) < 4 * wx[k] < 4 * (cq + 2));
            }
            if a == 0 {
                assert(wqx == x0);
                assert(resolve_wall(x0, y0 - 1, wqx, wqy) == (x0, y0));
                lemma_resolve_walls_from_clear(x0, y0, wx, wy, k + 1);
            } else if wqx == 4 * cq && a == 3 {
                assert(resolve_wall(x0, y0 - 1, wqx, wqy) == (x0 + 1, y0 - 1));
                assert forall|l: int|
                    0 <= l < k + 1 implies !boxes_overlap(
                    x0 + 1,
                    y0 - 1,
                    4 * #[trigger] wx[l],
                    4 * wy[l],
                ) by {
                    if boxes_overlap(x0 + 1, y0 - 1, 4 * wx[l], 4 * wy[l]) {
                        assert(l < k ==> boxes_overlap(x0, y0 - 1, 4 * wx[l], 4 * wy[l]));
                        assert(l == k ==> 4 * wx[l] < x0 + 1 + 4 && x0 + 1 < 4 * wx[l] + 4);
                    }
                }
                lemma_resolve_up_sibling(x0, y0, x0 + 1, wx, wy, k + 1);
            } else if wqx == 4 * cq + 4 && a == 1 {
                assert(resolve_wall(x0, y0 - 1, wqx, wqy) == (x0 - 1, y0 - 1));
                assert forall|l: int|
                    0 <= l < k + 1 implies !boxes_overlap(
                    x0 - 1,
                    y0 - 1,
                    4 * #[trigger] wx[l],
                    4 * wy[l],
                ) by {
                    if boxes_overlap(x0 - 1, y0 - 1, 4 * wx[l], 4 * wy[l]) {
                        assert(l < k ==> boxes_overlap(x0, y0 - 1, 4 * wx[l], 4 * wy[l]));
                        assert(l == k ==> 4 * wx[l] < x0 - 1 + 4 && x0 - 1 < 4 * wx[l] + 4);
                    }
                }
                lemma_resolve_up_sibling(x0, y0, x0 - 1, wx, wy, k + 1);
            } else {
                assert(resolve_wall(x0, y0 - 1, wqx, wqy) == (x0, y0));
                lemma_resolve_walls_from_clear(x0, y0, wx, wy, k + 1);
            }
        }
    }
}

/// Exec clamp of a quarter coordinate into [0, hi].
pub fn clamp_coord(v: i32, hi: i32) -> (r: i32)
    requires
        0 <= hi,
        -1000 <= v <= 1000,
    ensures
        r as int == clamp(v as int, hi as int),
{
    if v < 0 {
        0
    } else if v > hi {
        hi
    } else {
        v
    }
}

/// Exec test of unit-box overlap.
pub fn boxes_overlap_exec(ax: i32, ay: i32, bx: i32, by: i32) -> (r: bool)
    requires
        -1000 <= ax <= 1000,
        -1000 <= ay <= 1000,
        -1000 <= bx <= 1000,
        -1000 <= by <= 1000,
    ensures
        r == boxes_overlap(ax as int, ay as int, bx as int, by as int),
{
    ax < bx + 4 && bx < ax + 4 && ay < by + 4 && by < ay + 4
}

/// Exec minimum-translation resolution against one wall box.
pub fn resolve_wall_exec(x: i32, y: i32, wqx: i32, wqy: i32) -> (r: (i32, i32))
    requires
        0 <= x <= X_MAX,
        0 <= y <= Y_MAX,
        0 <= wqx <= X_MAX,
        0 <= wqy <= Y_MAX,
    ensures
        (r.0 as int, r.1 as int) == resolve_wall(x as int, y as int, wqx as int, wqy as int),
        0 <= r.0 <= X_MAX,
        0 <= r.1 <= Y_MAX,
    {
    if boxes_overlap_exec(x, y, wqx, wqy) {
        let left = x + 4 - wqx;
        let right = wqx + 4 - x;
        let top = y + 4 - wqy;
        let bottom = wqy + 4 - y;
        if left <= right && left <= top && left <= bottom {
            (clamp_coord(wqx - 4, X_MAX), y)
        } else if right <= top && right <= bottom {
            (clamp_coord(wqx + 4, X_MAX), y)
        } else if top <= bottom {
            (x, clamp_coord(wqy - 4, Y_MAX))
        } else {
            (x, clamp_coord(wqy + 4, Y_MAX))
        }
    } else {
        (x, y)
    }
}

} // verus!
