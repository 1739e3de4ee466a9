//! Straight segments by integer error accumulation (Bresenham), in every
//! octant.
use crate::canvas::{
    cells_wf, draw_index, lemma_draw_index_safe, lemma_painted_concat, lemma_painted_single, lemma_painted_wf,
    painted, Canvas,
};
use vstd::prelude::*;

verus! {

/// A point of the Cartesian plane.
pub type Point = (i32, i32);

pub open spec fn abs(v: int) -> int {
    if v < 0 {
        -v
    } else {
        v
    }
}

/// The unit step that moves `from` toward `to`.
pub open spec fn step_toward(from: int, to: int) -> int {
    if from < to {
        1
    } else {
        -1
    }
}

/// The points that the rasterizer visits from `(x, y)` with error term `err`
/// on its way to `(bx, by)`, where `dx >= 0` and `dy <= 0` are the segment's
/// horizontal distance and negated vertical distance.
///
/// Each step plots the current point, stops there at the end point, and
/// otherwise moves along x when `2 * err >= dy` and along y when
/// `2 * err <= dx`, stopping instead of moving along an axis whose end
/// coordinate is already reached.
pub open spec fn line_from(x: int, y: int, err: int, bx: int, by: int, dx: int, dy: int) -> Seq<(int, int)>
    decreases abs(bx - x) + abs(by - y),
{
    let e2 = 2 * err;
    if (x == bx && y == by) || dx < 0 || dy > 0 {
        seq![(x, y)]
    } else if e2 >= dy && x == bx {
        seq![(x, y)]
    } else {
        let x1 = if e2 >= dy { x + step_toward(x, bx) } else { x };
        let err1 = if e2 >= dy { err + dy } else { err };
        if e2 <= dx && y == by {
            seq![(x, y)]
        } else {
            let y1 = if e2 <= dx { y + step_toward(y, by) } else { y };
            let err2 = if e2 <= dx { err1 + dx } else { err1 };
            seq![(x, y)] + line_from(x1, y1, err2, bx, by, dx, dy)
        }
    }
}

/// The points of the segment from `a` to `b`, in the order they are drawn.
pub open spec fn line_points(a: (int, int), b: (int, int)) -> Seq<(int, int)> {
    let dx = abs(b.0 - a.0);
    let dy = -abs(b.1 - a.1);
    line_from(a.0, a.1, dx + dy, b.0, b.1, dx, dy)
}

/// Whether two points are equal or neighbours, diagonals included.
pub open spec fn adjacent(p: (int, int), q: (int, int)) -> bool {
    abs(p.0 - q.0) <= 1 && abs(p.1 - q.1) <= 1
}

/// A run of the rasterizer starts at its current point and moves between
/// neighbouring cells.
proof fn lemma_line_from_connected(x: int, y: int, err: int, bx: int, by: int, dx: int, dy: int)
    ensures
        line_from(x, y, err, bx, by, dx, dy).len() >= 1,
        line_from(x, y, err, bx, by, dx, dy)[0] == (x, y),
        forall|k: int|
            0 <= k < line_from(x, y, err, bx, by, dx, dy).len() - 1 ==> adjacent(
                #[trigger] line_from(x, y, err, bx, by, dx, dy)[k],
                line_from(x, y, err, bx, by, dx, dy)[k + 1],
            ),
    decreases abs(bx - x) + abs(by - y),
{
    let e2 = 2 * err;
    if (x == bx && y == by) || dx < 0 || dy > 0 {
    } else if e2 >= dy && x == bx {
    } else {
        let x1 = if e2 >= dy { x + step_toward(x, bx) } else { x };
        let err1 = if e2 >= dy { err + dy } else { err };
        if e2 <= dx && y == by {
        } else {
            let y1 = if e2 <= dx { y + step_toward(y, by) } else { y };
            let err2 = if e2 <= dx { err1 + dx } else { err1 };
            lemma_line_from_connected(x1, y1, err2, bx, by, dx, dy);
            let rest = line_from(x1, y1, err2, bx, by, dx, dy);
            let all = line_from(x, y, err, bx, by, dx, dy);
            assert(all == seq![(x, y)] + rest);
            assert forall|k: int| 0 <= k < all.len() - 1 implies adjacent(#[trigger] all[k], all[k + 1]) by {
                if k > 0 {
                    assert(all[k] == rest[k - 1]);
                    assert(all[k + 1] == rest[k]);
                }
            }
        }
    }
}

/// Every segment starts at `a` and has no gaps: consecutive points are
/// neighbours.
pub proof fn lemma_line_connected(a: (int, int), b: (int, int))
    ensures
        line_points(a, b).len() >= 1,
        line_points(a, b)[0] == a,
        forall|k: int|
            0 <= k < line_points(a, b).len() - 1 ==> adjacent(#[trigger] line_points(a, b)[k], line_points(a, b)[k + 1]),
{
    let dx = abs(b.0 - a.0);
    let dy = -abs(b.1 - a.1);
    lemma_line_from_connected(a.0, a.1, dx + dy, b.0, b.1, dx, dy);
}

/// A run that has taken `kx` steps along x and `ky` along y, with the error
/// term that those steps give, ends at `(bx, by)`.
proof fn lemma_line_from_ends(x: int, y: int, err: int, bx: int, by: int, dx: int, dy: int, kx: int, ky: int)
    requires
        0 <= kx <= dx,
        0 <= ky <= -dy,
        abs(bx - x) == dx - kx,
        abs(by - y) == -dy - ky,
        err == dx + dy + kx * dy + ky * dx,
    ensures
        line_from(x, y, err, bx, by, dx, dy).len() >= 1,
        line_from(x, y, err, bx, by, dx, dy).last() == (bx, by),
    decreases abs(bx - x) + abs(by - y),
{
    let e2 = 2 * err;
    if x == bx && y == by {
    } else if e2 >= dy && x == bx {
        assert(err <= dy) by (nonlinear_arith)
            requires
                err == dx + dy + kx * dy + ky * dx,
                kx == dx,
                ky <= -dy - 1,
                dx >= 0,
        ;
    } else {
        let x1 = if e2 >= dy { x + step_toward(x, bx) } else { x };
        let kx1 = if e2 >= dy { kx + 1 } else { kx };
        let err1 = if e2 >= dy { err + dy } else { err };
        if e2 <= dx && y == by {
            assert(err >= dx) by (nonlinear_arith)
                requires
                    err == dx + dy + kx * dy + ky * dx,
                    ky == -dy,
                    kx <= dx - 1,
                    dy <= 0,
            ;
        } else {
            let y1 = if e2 <= dx { y + step_toward(y, by) } else { y };
            let ky1 = if e2 <= dx { ky + 1 } else { ky };
            let err2 = if e2 <= dx { err1 + dx } else { err1 };
            assert(err2 == dx + dy + kx1 * dy + ky1 * dx) by (nonlinear_arith)
                requires
                    err == dx + dy + kx * dy + ky * dx,
                    err1 == (if e2 >= dy { err + dy } else { err }),
                    kx1 == (if e2 >= dy { kx + 1 } else { kx }),
                    err2 == (if e2 <= dx { err1 + dx } else { err1 }),
                    ky1 == (if e2 <= dx { ky + 1 } else { ky }),
            ;
            lemma_line_from_ends(x1, y1, err2, bx, by, dx, dy, kx1, ky1);
            let rest = line_from(x1, y1, err2, bx, by, dx, dy);
            assert(line_from(x, y, err, bx, by, dx, dy) == seq![(x, y)] + rest);
        }
    }
}

/// Every segment ends at `b`.
pub proof fn lemma_line_ends(a: (int, int), b: (int, int))
    ensures
        line_points(a, b).len() >= 1,
        line_points(a, b).last() == b,
{
    let dx = abs(b.0 - a.0);
    let dy = -abs(b.1 - a.1);
    lemma_line_from_ends(a.0, a.1, dx + dy, b.0, b.1, dx, dy, 0, 0);
}

/// A run as in `lemma_line_from_ends` that moves along its major axis at
/// every step has one point per remaining step along that axis, plus one.
proof fn lemma_line_from_len(x: int, y: int, err: int, bx: int, by: int, dx: int, dy: int, kx: int, ky: int)
    requires
        0 <= kx <= dx,
        0 <= ky <= -dy,
        abs(bx - x) == dx - kx,
        abs(by - y) == -dy - ky,
        err == dx + dy + kx * dy + ky * dx,
        dx >= -dy ==> 2 * err >= dy,
        -dy >= dx ==> 2 * err <= dx,
    ensures
        dx >= -dy ==> line_from(x, y, err, bx, by, dx, dy).len() == abs(bx - x) + 1,
        -dy >= dx ==> line_from(x, y, err, bx, by, dx, dy).len() == abs(by - y) + 1,
    decreases abs(bx - x) + abs(by - y),
{
    let e2 = 2 * err;
    if x == bx && y == by {
    } else if e2 >= dy && x == bx {
        assert(err <= dy) by (nonlinear_arith)
            requires
                err == dx + dy + kx * dy + ky * dx,
                kx == dx,
                ky <= -dy - 1,
                dx >= 0,
        ;
    } else {
        let x1 = if e2 >= dy { x + step_toward(x, bx) } else { x };
        let kx1 = if e2 >= dy { kx + 1 } else { kx };
        let err1 = if e2 >= dy { err + dy } else { err };
        if e2 <= dx && y == by {
            assert(err >= dx) by (nonlinear_arith)
                requires
                    err == dx + dy + kx * dy + ky * dx,
                    ky == -dy,
                    kx <= dx - 1,
                    dy <= 0,
            ;
        } else {
            let y1 = if e2 <= dx { y + step_toward(y, by) } else { y };
            let ky1 = if e2 <= dx { ky + 1 } else { ky };
            let err2 = if e2 <= dx { err1 + dx } else { err1 };
            assert(err2 == dx + dy + kx1 * dy + ky1 * dx) by (nonlinear_arith)
                requires
                    err == dx + dy + kx * dy + ky * dx,
                    err1 == (if e2 >= dy { err + dy } else { err }),
                    kx1 == (if e2 >= dy { kx + 1 } else { kx }),
                    err2 == (if e2 <= dx { err1 + dx } else { err1 }),
                    ky1 == (if e2 <= dx { ky + 1 } else { ky }),
            ;
            if dx >= -dy && x == bx {
                assert(err <= dy) by (nonlinear_arith)
                    requires
                        err == dx + dy + kx * dy + ky * dx,
                        kx == dx,
                        ky <= -dy - 1,
                        dx >= 0,
                ;
            }
            if -dy >= dx && y == by {
                assert(err >= dx) by (nonlinear_arith)
                    requires
                        err == dx + dy + kx * dy + ky * dx,
                        ky == -dy,
                        kx <= dx - 1,
                        dy <= 0,
                ;
            }
            lemma_line_from_len(x1, y1, err2, bx, by, dx, dy, kx1, ky1);
            let rest = line_from(x1, y1, err2, bx, by, dx, dy);
            assert(line_from(x, y, err, bx, by, dx, dy) == seq![(x, y)] + rest);
        }
    }
}

/// A segment has one point per step along its major axis: `max(|dx|, |dy|) + 1`
/// points in all.
pub proof fn lemma_line_len(a: (int, int), b: (int, int))
    ensures
        line_points(a, b).len() == (if abs(b.0 - a.0) >= abs(b.1 - a.1) {
            abs(b.0 - a.0)
        } else {
            abs(b.1 - a.1)
        }) + 1,
{
    let dx = abs(b.0 - a.0);
    let dy = -abs(b.1 - a.1);
    lemma_line_from_len(a.0, a.1, dx + dy, b.0, b.1, dx, dy, 0, 0);
}

/// A segment from a point to itself is that one point.
pub proof fn lemma_point_line(p: (int, int))
    ensures
        line_points(p, p) == seq![p],
{
}

/// Drawing a segment from a point to itself changes exactly that point's cell.
pub proof fn lemma_point_line_paints_one_cell(w: nat, h: nat, cells: Seq<char>, p: (int, int), ch: char)
    requires
        cells_wf(w, h, cells),
    ensures
        painted(w, h, cells, line_points(p, p), ch) == cells.update(draw_index(w, h, p.0, p.1), ch),
{
    lemma_point_line(p);
    lemma_painted_single(w, h, cells, p, ch);
}

/// A horizontal run on row 0 visits every column from `x` to `bx` in order.
proof fn lemma_horizontal_from(x: int, bx: int)
    requires
        x <= bx,
        bx >= 1,
    ensures
        line_from(x, 0, bx, bx, 0, bx, 0) =~= Seq::new((bx - x + 1) as nat, |i: int| (x + i, 0int)),
    decreases bx - x,
{
    if x < bx {
        lemma_horizontal_from(x + 1, bx);
    }
}

/// The segment from `(0, 0)` to `(w - 1, 0)` is the points `(i, 0)` for
/// `0 <= i < w`.
pub proof fn lemma_bottom_line_points(w: nat)
    requires
        w >= 2,
    ensures
        line_points((0, 0), (w - 1, 0)) =~= Seq::new(w, |i: int| (i, 0int)),
{
    lemma_horizontal_from(0, w - 1);
}

/// Drawing from `(0, 0)` to `(w - 1, 0)` fills every visible cell of the
/// bottom row of the buffer.
pub proof fn lemma_bottom_line_fills_row(w: nat, h: nat, cells: Seq<char>, ch: char)
    requires
        cells_wf(w, h, cells),
    ensures
        forall|col: int|
            0 <= col < w - 1 ==> #[trigger] painted(w, h, cells, line_points((0, 0), (w - 1, 0)), ch)[(h - 1) * w
                + col] == ch,
{
    let pts = line_points((0, 0), (w - 1, 0));
    lemma_bottom_line_points(w);
    assert forall|col: int| 0 <= col < w - 1 implies #[trigger] painted(w, h, cells, pts, ch)[(h - 1) * w
        + col] == ch by {
        lemma_draw_index_safe(w, h, col + 1, 0);
        assert(draw_index(w, h, pts[col + 1].0, pts[col + 1].1) == (h - 1) * w + col);
    }
}

impl Canvas {
    /// Draws the segment from `a` to `b` with `c`: exactly the cells of
    /// `line_points(a, b)` change, to `c`.
    pub fn draw_line(&mut self, a: Point, b: Point, c: char)
        requires
            old(self).wf(),
        ensures
            final(self).wf(),
            final(self).spec_width() == old(self).spec_width(),
            final(self).spec_height() == old(self).spec_height(),
            final(self)@ == painted(
                old(self).spec_width(),
                old(self).spec_height(),
                old(self)@,
                line_points((a.0 as int, a.1 as int), (b.0 as int, b.1 as int)),
                c,
            ),
    {
        let ghost w = self.spec_width();
        let ghost h = self.spec_height();
        let ghost start = self@;
        let ghost pts = line_points((a.0 as int, a.1 as int), (b.0 as int, b.1 as int));
        let bx = b.0 as i64;
        let by = b.1 as i64;
        let mut x = a.0 as i64;
        let mut y = a.1 as i64;
        let dx: i64 = if bx > x { bx - x } else { x - bx };
        let sx: i64 = if x < bx { 1 } else { -1 };
        let dy: i64 = if by > y { y - by } else { by - y };
        let sy: i64 = if y < by { 1 } else { -1 };
        let mut error: i64 = dx + dy;
        let ghost mut done: Seq<(int, int)> = Seq::empty();
        loop
            invariant_except_break
                pts == done + line_from(x as int, y as int, error as int, bx as int, by as int, dx as int, dy as int),
            invariant
                self.wf(),
                self.spec_width() == w,
                self.spec_height() == h,
                cells_wf(w, h, start),
                self@ == painted(w, h, start, done, c),
                bx == b.0,
                by == b.1,
                dx == abs(b.0 - a.0),
                dy == -abs(b.1 - a.1),
                (sx == 1 && a.0 <= x <= bx) || (sx == -1 && bx <= x <= a.0),
                (sy == 1 && a.1 <= y <= by) || (sy == -1 && by <= y <= a.1),
                -2 * (dx - dy) <= error <= 2 * (dx - dy),
            ensures
                self.wf(),
                self.spec_width() == w,
                self.spec_height() == h,
                self@ == painted(w, h, start, pts, c),
            decreases abs(bx - x) + abs(by - y),
        {
            proof {
                lemma_painted_concat(w, h, start, done, seq![(x as int, y as int)], c);
                lemma_painted_wf(w, h, start, done, c);
            }
            self.plot(x, y, c);
            let ghost rest = line_from(x as int, y as int, error as int, bx as int, by as int, dx as int, dy as int);
            proof {
                done = done + seq![(x as int, y as int)];
            }
            if x == bx && y == by {
                assert(pts =~= done);
                break;
            }
            let e2 = 2 * error;
            if e2 >= dy {
                if x == bx {
                    assert(pts =~= done);
                    break;
                }
                error += dy;
                x += sx;
            }
            if e2 <= dx {
                if y == by {
                    assert(pts =~= done);
                    break;
                }
                error += dx;
                y += sy;
            }
            assert(rest == seq![rest[0]] + line_from(x as int, y as int, error as int, bx as int, by as int, dx as int, dy as int));
            assert(pts =~= done + line_from(x as int, y as int, error as int, bx as int, by as int, dx as int, dy as int));
        }
    }
}

} // verus!
