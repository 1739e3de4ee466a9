//! Circle outlines by the incremental midpoint algorithm with 8-way symmetry.
use crate::canvas::{cells_wf, lemma_painted_concat, lemma_painted_wf, painted, Canvas};
use crate::line::Point;
use vstd::prelude::*;

verus! {

/// The offsets that the midpoint iteration plots from `(x, y)` with decision
/// variable `d`: while `y >= x`, plot `(x, y)`, then step x by one and, if
/// `d > 0`, step y down and add `4 * (x - y) + 10` to `d`, else add `4 * x + 6`.
pub open spec fn octant_from(x: int, y: int, d: int) -> Seq<(int, int)>
    decreases y - x + 2,
{
    if y < x {
        Seq::empty()
    } else {
        let x1 = x + 1;
        let y1 = if d > 0 { y - 1 } else { y };
        let d1 = if d > 0 { d + 4 * (x1 - y1) + 10 } else { d + 4 * x1 + 6 };
        seq![(x, y)] + octant_from(x1, y1, d1)
    }
}

/// The offsets of one octant of the circle of radius `r`, starting at `(0, r)`.
pub open spec fn circle_offsets(r: int) -> Seq<(int, int)> {
    octant_from(0, r, 3 - 2 * r)
}

/// The eight reflections of offset `v` around center `c`.
pub open spec fn symmetric_points(c: (int, int), v: (int, int)) -> Seq<(int, int)> {
    seq![
        (c.0 + v.0, c.1 + v.1),
        (c.0 - v.0, c.1 + v.1),
        (c.0 + v.0, c.1 - v.1),
        (c.0 - v.0, c.1 - v.1),
        (c.0 + v.1, c.1 + v.0),
        (c.0 - v.1, c.1 + v.0),
        (c.0 + v.1, c.1 - v.0),
        (c.0 - v.1, c.1 - v.0),
    ]
}

/// The reflections of every offset of `offs`, in order.
pub open spec fn reflect_all(c: (int, int), offs: Seq<(int, int)>) -> Seq<(int, int)>
    decreases offs.len(),
{
    if offs.len() == 0 {
        Seq::empty()
    } else {
        reflect_all(c, offs.drop_last()) + symmetric_points(c, offs.last())
    }
}

/// The points of the circle of radius `r` around `c`, in the order they are drawn.
pub open spec fn circle_points(c: (int, int), r: int) -> Seq<(int, int)> {
    reflect_all(c, circle_offsets(r))
}

/// Every point of the circle of radius 5 lies within distance 1 of the
/// radius: its squared distance from the center is between 16 and 36.
pub proof fn lemma_radius_five_points(c: (int, int))
    ensures
        forall|k: int|
            0 <= k < circle_points(c, 5).len() ==> {
                let p = #[trigger] circle_points(c, 5)[k];
                16 <= (p.0 - c.0) * (p.0 - c.0) + (p.1 - c.1) * (p.1 - c.1) <= 36
            },
{
    reveal_with_fuel(octant_from, 6);
    let offs = circle_offsets(5);
    assert(offs =~= seq![(0int, 5int), (1, 5), (2, 4), (3, 3)]);
    reveal_with_fuel(reflect_all, 5);
    assert(offs.drop_last() =~= seq![(0int, 5int), (1, 5), (2, 4)]);
    assert(offs.drop_last().drop_last() =~= seq![(0int, 5int), (1, 5)]);
    assert(offs.drop_last().drop_last().drop_last() =~= seq![(0int, 5int)]);
    assert(offs.drop_last().drop_last().drop_last().drop_last() =~= Seq::<(int, int)>::empty());
    let pts = circle_points(c, 5);
    assert(pts =~= symmetric_points(c, (0, 5)) + symmetric_points(c, (1, 5)) + symmetric_points(c, (2, 4))
        + symmetric_points(c, (3, 3)));
    lemma_symmetric_distance(c, (0, 5));
    lemma_symmetric_distance(c, (1, 5));
    lemma_symmetric_distance(c, (2, 4));
    lemma_symmetric_distance(c, (3, 3));
    assert forall|k: int| 0 <= k < pts.len() implies {
        let p = #[trigger] pts[k];
        16 <= (p.0 - c.0) * (p.0 - c.0) + (p.1 - c.1) * (p.1 - c.1) <= 36
    } by {
        if k < 8 {
            assert(pts[k] == symmetric_points(c, (0, 5))[k]);
        } else if k < 16 {
            assert(pts[k] == symmetric_points(c, (1, 5))[k - 8]);
        } else if k < 24 {
            assert(pts[k] == symmetric_points(c, (2, 4))[k - 16]);
        } else {
            assert(pts[k] == symmetric_points(c, (3, 3))[k - 24]);
        }
    }
}

/// The eight reflections of an offset all lie at the offset's squared
/// distance from the center.
proof fn lemma_symmetric_distance(c: (int, int), v: (int, int))
    ensures
        forall|j: int|
            0 <= j < 8 ==> {
                let p = #[trigger] symmetric_points(c, v)[j];
                (p.0 - c.0) * (p.0 - c.0) + (p.1 - c.1) * (p.1 - c.1) == v.0 * v.0 + v.1 * v.1
            },
{
    assert((-v.0) * (-v.0) == v.0 * v.0) by (nonlinear_arith);
    assert((-v.1) * (-v.1) == v.1 * v.1) by (nonlinear_arith);
}

impl Canvas {
    /// Plots the eight reflections of offset `v` around `c`.
    fn render_circle(&mut self, c: Point, v: (i64, i64), ch: char)
        requires
            old(self).wf(),
            -0x1_0000_0000 <= v.0 <= 0x1_0000_0000,
            -0x1_0000_0000 <= v.1 <= 0x1_0000_0000,
        ensures
            final(self).wf(),
            final(self).spec_width() == old(self).spec_width(),
            final(self).spec_height() == old(self).spec_height(),
            final(self)@ == painted(
                old(self).spec_width(),
                old(self).spec_height(),
                old(self)@,
                symmetric_points((c.0 as int, c.1 as int), (v.0 as int, v.1 as int)),
                ch,
            ),
    {
        let ghost w = self.spec_width();
        let ghost h = self.spec_height();
        let ghost start = self@;
        let ghost pts = symmetric_points((c.0 as int, c.1 as int), (v.0 as int, v.1 as int));
        let cx = c.0 as i64;
        let cy = c.1 as i64;
        let xs: [i64; 8] = [cx + v.0, cx - v.0, cx + v.0, cx - v.0, cx + v.1, cx - v.1, cx + v.1, cx - v.1];
        let ys: [i64; 8] = [cy + v.1, cy + v.1, cy - v.1, cy - v.1, cy + v.0, cy + v.0, cy - v.0, cy - v.0];
        let mut k: usize = 0;
        while k < 8
            invariant
                0 <= k <= 8,
                self.wf(),
                self.spec_width() == w,
                self.spec_height() == h,
                cells_wf(w, h, start),
                pts == symmetric_points((c.0 as int, c.1 as int), (v.0 as int, v.1 as int)),
                forall|j: int| 0 <= j < 8 ==> #[trigger] pts[j] == (xs[j] as int, ys[j] as int),
                self@ == painted(w, h, start, pts.take(k as int), ch),
            decreases 8 - k,
        {
            proof {
                lemma_painted_concat(w, h, start, pts.take(k as int), seq![pts[k as int]], ch);
                assert(pts.take(k as int) + seq![pts[k as int]] =~= pts.take(k as int + 1));
            }
            self.plot(xs[k], ys[k], ch);
            k += 1;
        }
        assert(pts.take(8) =~= pts);
    }

    /// Draws the outline of the circle of radius `r` around `c` with `ch`:
    /// exactly the cells of `circle_points(c, r)` change, to `ch`.
    pub fn draw_circle(&mut self, c: Point, r: i32, ch: char)
        requires
            old(self).wf(),
        ensures
            final(self).wf(),
            final(self).spec_width() == old(self).spec_width(),
            final(self).spec_height() == old(self).spec_height(),
            final(self)@ == painted(
                old(self).spec_width(),
                old(self).spec_height(),
                old(self)@,
                circle_points((c.0 as int, c.1 as int), r as int),
                ch,
            ),
    {
        let ghost w = self.spec_width();
        let ghost h = self.spec_height();
        let ghost start = self@;
        let ghost cc = (c.0 as int, c.1 as int);
        let mut x: i64 = 0;
        let mut y: i64 = r as i64;
        let mut d: i128 = 3 - 2 * (r as i128);
        let ghost mut offs: Seq<(int, int)> = Seq::empty();
        assert(painted(w, h, start, reflect_all(cc, offs), ch) =~= start);
        while y >= x
            invariant_except_break
                circle_offsets(r as int) == offs + octant_from(x as int, y as int, d as int),
            invariant
                self.wf(),
                self.spec_width() == w,
                self.spec_height() == h,
                cells_wf(w, h, start),
                cc == (c.0 as int, c.1 as int),
                self@ == painted(w, h, start, reflect_all(cc, offs), ch),
                0 <= x,
                r >= 0 ==> x <= r + 1,
                y <= r,
                r >= 0 ==> -1 <= y,
                r < 0 ==> x == 0 && y == r,
                -0x2_0000_0000 - x * 0x10_0000_0000 <= d <= 0x2_0000_0000 + x * 0x10_0000_0000,
            ensures
                self.wf(),
                self.spec_width() == w,
                self.spec_height() == h,
                self@ == painted(w, h, start, circle_points(cc, r as int), ch),
            decreases y - x + 2,
        {
            let ghost rest = octant_from(x as int, y as int, d as int);
            proof {
                let p = (x as int, y as int);
                lemma_painted_concat(w, h, start, reflect_all(cc, offs), symmetric_points(cc, p), ch);
                lemma_painted_wf(w, h, start, reflect_all(cc, offs), ch);
                assert(offs.push(p).drop_last() =~= offs);
            }
            self.render_circle(c, (x, y), ch);
            x += 1;
            if d > 0 {
                y -= 1;
                d = d + 4 * ((x - y) as i128) + 10;
            } else {
                d = d + 4 * (x as i128) + 6;
            }
            proof {
                let p = rest[0];
                assert(rest == seq![p] + octant_from(x as int, y as int, d as int));
                assert(offs + rest =~= offs.push(p) + octant_from(x as int, y as int, d as int));
                offs = offs.push(p);
            }
        }
    }
}

} // verus!
