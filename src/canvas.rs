//! The character buffer and the mapping from Cartesian coordinates to it.
//!
//! A canvas of width `w` and height `h` holds `w * h` characters, row-major,
//! with the top row first. The last cell of every row holds the line
//! terminator `'\n'`, so `w - 1` columns are visible. Cartesian `y == 0` is
//! the bottom row. An input column `x` is taken as one-based (`x - 1`), except
//! that `x == 0` (or a negative `x`) is not decremented below column 0; the row
//! is the distance of `y` from the top row `h - 1`. A computed index outside
//! the buffer falls on index 0. Reading follows that mapping as it is; drawing
//! sends every point outside `[0, w) x [0, h)` to index 0 as well, so that no
//! terminator is ever overwritten.
use vstd::arithmetic::div_mod::lemma_fundamental_div_mod_converse;
use vstd::prelude::*;

verus! {

/// The line terminator that ends every row of the buffer.
pub const TERMINATOR: char = '\n';

/// The character of an empty cell.
pub const BLANK: char = ' ';

/// Buffer index of the Cartesian point `(x, y)` on a `w` by `h` canvas.
pub open spec fn cell_index(w: nat, h: nat, x: int, y: int) -> int {
    let col = if x < 1 { 0 } else { x - 1 };
    let row = if h - 1 - y < 0 { y - (h - 1) } else { h - 1 - y };
    let idx = col + row * w;
    if idx >= w * h {
        0
    } else {
        idx
    }
}

/// The cell that drawing at `(x, y)` writes: the mapped cell for a point of
/// `[0, w) x [0, h)`, index 0 for any other.
pub open spec fn draw_index(w: nat, h: nat, x: int, y: int) -> int {
    if 0 <= x < w && 0 <= y < h {
        cell_index(w, h, x, y)
    } else {
        0
    }
}

/// Whether buffer index `i` is the terminator column of its row.
pub open spec fn is_terminator_cell(w: nat, i: int) -> bool {
    i % (w as int) == w - 1
}

/// The content of a freshly cleared cell at index `i`.
pub open spec fn blank_cell(w: nat, i: int) -> char {
    if is_terminator_cell(w, i) {
        TERMINATOR
    } else {
        BLANK
    }
}

/// The buffer of a cleared `w` by `h` canvas.
pub open spec fn blank_cells(w: nat, h: nat) -> Seq<char> {
    Seq::new(w * h, |i: int| blank_cell(w, i))
}

/// Dimensions that a canvas accepts: at least one visible column and one row,
/// and a buffer whose length fits in `usize`.
pub open spec fn valid_dims(w: nat, h: nat) -> bool {
    &&& w >= 2
    &&& h >= 1
    &&& w * h <= usize::MAX
}

/// A well-formed buffer: valid dimensions, the right length, and a terminator
/// at the end of every row.
pub open spec fn cells_wf(w: nat, h: nat, cells: Seq<char>) -> bool {
    &&& valid_dims(w, h)
    &&& cells.len() == w * h
    &&& forall|i: int| 0 <= i < cells.len() && is_terminator_cell(w, i) ==> #[trigger] cells[i] == TERMINATOR
}

/// The buffer after plotting `ch` at every point of `pts`: a cell changes
/// exactly when some point of `pts` maps to it.
pub open spec fn painted(w: nat, h: nat, cells: Seq<char>, pts: Seq<(int, int)>, ch: char) -> Seq<char> {
    Seq::new(
        cells.len(),
        |i: int|
            if exists|k: int| 0 <= k < pts.len() && #[trigger] draw_index(w, h, pts[k].0, pts[k].1) == i {
                ch
            } else {
                cells[i]
            },
    )
}

/// Every point maps inside the buffer.
pub proof fn lemma_cell_index_bounds(w: nat, h: nat, x: int, y: int)
    requires
        valid_dims(w, h),
    ensures
        0 <= cell_index(w, h, x, y) < w * h,
{
    let col = if x < 1 { 0 } else { x - 1 };
    let row = if h - 1 - y < 0 { y - (h - 1) } else { h - 1 - y };
    assert(0 <= row * w) by (nonlinear_arith)
        requires
            0 <= row,
            w >= 0,
    ;
    assert(w * h >= 1) by (nonlinear_arith)
        requires
            w >= 2,
            h >= 1,
    ;
}

/// Drawing writes inside the buffer and never onto a terminator cell; a point
/// of `[0, w) x [0, h)` is written at column `x - 1` (column 0 for `x == 0`)
/// of row `h - 1 - y`.
pub proof fn lemma_draw_index_safe(w: nat, h: nat, x: int, y: int)
    requires
        valid_dims(w, h),
    ensures
        0 <= draw_index(w, h, x, y) < w * h,
        !is_terminator_cell(w, draw_index(w, h, x, y)),
        0 <= x < w && 0 <= y < h ==> draw_index(w, h, x, y) == (if x == 0 { 0 } else { x - 1 }) + (h - 1 - y) * w,
{
    if 0 <= x < w && 0 <= y < h {
        let col: int = if x == 0 { 0 } else { x - 1 };
        let row: int = h - 1 - y;
        assert(row * w <= (h - 1) * w) by (nonlinear_arith)
            requires
                0 <= row <= h - 1,
                w >= 0,
        ;
        assert((h - 1) * w == w * h - w) by (nonlinear_arith);
        assert(0 <= row * w) by (nonlinear_arith)
            requires
                0 <= row,
                w >= 0,
        ;
        lemma_fundamental_div_mod_converse(col + row * w, w as int, row, col);
    } else {
        assert(w * h >= 1) by (nonlinear_arith)
            requires
                w >= 2,
                h >= 1,
        ;
        lemma_fundamental_div_mod_converse(0, w as int, 0, 0);
    }
}

/// Painting a single point writes `ch` at that point's cell and nowhere else.
pub proof fn lemma_painted_single(w: nat, h: nat, cells: Seq<char>, p: (int, int), ch: char)
    requires
        cells_wf(w, h, cells),
    ensures
        painted(w, h, cells, seq![p], ch) == cells.update(draw_index(w, h, p.0, p.1), ch),
{
    lemma_draw_index_safe(w, h, p.0, p.1);
    let pts = seq![p];
    assert forall|i: int| 0 <= i < cells.len() implies #[trigger] painted(w, h, cells, pts, ch)[i]
        == cells.update(draw_index(w, h, p.0, p.1), ch)[i] by {
        if i == draw_index(w, h, p.0, p.1) {
            assert(draw_index(w, h, pts[0].0, pts[0].1) == i);
        }
    }
    assert(painted(w, h, cells, pts, ch) =~= cells.update(draw_index(w, h, p.0, p.1), ch));
}

/// Painting `a` and then `b` is painting `a + b`.
pub proof fn lemma_painted_concat(
    w: nat,
    h: nat,
    cells: Seq<char>,
    a: Seq<(int, int)>,
    b: Seq<(int, int)>,
    ch: char,
)
    ensures
        painted(w, h, painted(w, h, cells, a, ch), b, ch) == painted(w, h, cells, a + b, ch),
{
    let ab = a + b;
    let lhs = painted(w, h, painted(w, h, cells, a, ch), b, ch);
    let rhs = painted(w, h, cells, ab, ch);
    assert forall|i: int| 0 <= i < cells.len() implies #[trigger] lhs[i] == rhs[i] by {
        if exists|k: int| 0 <= k < ab.len() && #[trigger] draw_index(w, h, ab[k].0, ab[k].1) == i {
            let k = choose|k: int| 0 <= k < ab.len() && #[trigger] draw_index(w, h, ab[k].0, ab[k].1) == i;
            if k < a.len() {
                assert(draw_index(w, h, a[k].0, a[k].1) == i);
            } else {
                assert(draw_index(w, h, b[k - a.len()].0, b[k - a.len()].1) == i);
            }
        }
        if exists|k: int| 0 <= k < a.len() && #[trigger] draw_index(w, h, a[k].0, a[k].1) == i {
            let k = choose|k: int| 0 <= k < a.len() && #[trigger] draw_index(w, h, a[k].0, a[k].1) == i;
            assert(draw_index(w, h, ab[k].0, ab[k].1) == i);
        }
        if exists|k: int| 0 <= k < b.len() && #[trigger] draw_index(w, h, b[k].0, b[k].1) == i {
            let k = choose|k: int| 0 <= k < b.len() && #[trigger] draw_index(w, h, b[k].0, b[k].1) == i;
            assert(draw_index(w, h, ab[k + a.len()].0, ab[k + a.len()].1) == i);
        }
    }
    assert(lhs =~= rhs);
}

/// Painting keeps a buffer well-formed.
pub proof fn lemma_painted_wf(w: nat, h: nat, cells: Seq<char>, pts: Seq<(int, int)>, ch: char)
    requires
        cells_wf(w, h, cells),
    ensures
        cells_wf(w, h, painted(w, h, cells, pts, ch)),
{
    let p = painted(w, h, cells, pts, ch);
    assert forall|i: int| 0 <= i < p.len() && is_terminator_cell(w, i) implies #[trigger] p[i]
        == TERMINATOR by {
        if exists|k: int| 0 <= k < pts.len() && #[trigger] draw_index(w, h, pts[k].0, pts[k].1) == i {
            let k = choose|k: int| 0 <= k < pts.len() && #[trigger] draw_index(w, h, pts[k].0, pts[k].1) == i;
            lemma_draw_index_safe(w, h, pts[k].0, pts[k].1);
        }
    }
}

/// Over the visible columns `1 <= x < w` and the rows `0 <= y < h`, distinct
/// points map to distinct buffer indices (columns 0 and 1 share their cells).
pub proof fn lemma_cell_index_injective(w: nat, h: nat, x1: int, y1: int, x2: int, y2: int)
    requires
        valid_dims(w, h),
        1 <= x1 < w,
        1 <= x2 < w,
        0 <= y1 < h,
        0 <= y2 < h,
        (x1, y1) != (x2, y2),
    ensures
        cell_index(w, h, x1, y1) != cell_index(w, h, x2, y2),
        0 <= cell_index(w, h, x1, y1) < w * h,
{
    lemma_draw_index_safe(w, h, x1, y1);
    lemma_draw_index_safe(w, h, x2, y2);
    let i1 = cell_index(w, h, x1, y1);
    let i2 = cell_index(w, h, x2, y2);
    lemma_fundamental_div_mod_converse(i1, w as int, h - 1 - y1, x1 - 1);
    lemma_fundamental_div_mod_converse(i2, w as int, h - 1 - y2, x2 - 1);
}

/// Column 0 is clamped onto column 1: both map to the same cell in every row.
pub proof fn lemma_first_columns_coincide(w: nat, h: nat, y: int)
    requires
        valid_dims(w, h),
    ensures
        cell_index(w, h, 0, y) == cell_index(w, h, 1, y),
{
}

/// On a cleared buffer a point of `[0, w) x [0, h)` reads as a blank, and a
/// point in the terminator column `x == w` of a row reads the terminator.
pub proof fn lemma_cleared_reads(w: nat, h: nat, x: int, y: int)
    requires
        valid_dims(w, h),
    ensures
        blank_cells(w, h)[cell_index(w, h, x, y)] == blank_cell(w, cell_index(w, h, x, y)),
        0 <= x < w && 0 <= y < h ==> blank_cells(w, h)[cell_index(w, h, x, y)] == BLANK,
        x == w && 0 <= y < h ==> blank_cells(w, h)[cell_index(w, h, x, y)] == TERMINATOR,
{
    lemma_cell_index_bounds(w, h, x, y);
    lemma_draw_index_safe(w, h, x, y);
    if x == w && 0 <= y < h {
        let row: int = h - 1 - y;
        assert(row * w <= (h - 1) * w) by (nonlinear_arith)
            requires
                0 <= row <= h - 1,
                w >= 0,
        ;
        assert((h - 1) * w == w * h - w) by (nonlinear_arith);
        lemma_fundamental_div_mod_converse(w - 1 + row * w, w as int, row, w - 1);
    }
}

/// The control sequence that clears a terminal and moves the cursor home:
/// `ESC [2J` then `ESC [1;1H`.
pub open spec fn terminal_reset() -> Seq<char> {
    seq!['\x1B', '[', '2', 'J', '\x1B', '[', '1', ';', '1', 'H']
}

/// A fixed-size grid of characters.
pub struct Canvas {
    width: u32,
    height: u32,
    c: Vec<char>,
}

impl View for Canvas {
    type V = Seq<char>;

    closed spec fn view(&self) -> Seq<char> {
        self.c@
    }
}

impl Canvas {
    /// Width of the buffer, terminator column included.
    pub closed spec fn spec_width(&self) -> nat {
        self.width as nat
    }

    /// Number of rows.
    pub closed spec fn spec_height(&self) -> nat {
        self.height as nat
    }

    pub open spec fn wf(&self) -> bool {
        cells_wf(self.spec_width(), self.spec_height(), self@)
    }

    /// Buffer index of `(x, y)` on this canvas.
    pub open spec fn index_of(&self, x: int, y: int) -> int {
        cell_index(self.spec_width(), self.spec_height(), x, y)
    }

    /// A cleared canvas of the given size.
    pub fn new(width: u32, height: u32) -> (r: Canvas)
        requires
            valid_dims(width as nat, height as nat),
        ensures
            r.wf(),
            r.spec_width() == width,
            r.spec_height() == height,
            r@ == blank_cells(width as nat, height as nat),
    {
        let mut r = Canvas { width, height, c: Vec::new() };
        r.clear_canvas();
        r
    }

    /// Resets every cell to a blank and rewrites the row terminators.
    pub fn clear_canvas(&mut self)
        requires
            valid_dims(old(self).spec_width(), old(self).spec_height()),
        ensures
            final(self).wf(),
            final(self).spec_width() == old(self).spec_width(),
            final(self).spec_height() == old(self).spec_height(),
            final(self)@ == blank_cells(old(self).spec_width(), old(self).spec_height()),
    {
        let w = self.width as usize;
        let n: usize = w * (self.height as usize);
        let mut c: Vec<char> = Vec::with_capacity(n);
        let mut i: usize = 0;
        while i < n
            invariant
                w == self.width,
                n == self.spec_width() * self.spec_height(),
                w >= 2,
                i <= n,
                c@.len() == i,
                forall|j: int| 0 <= j < i ==> #[trigger] c@[j] == blank_cell(w as nat, j),
            decreases n - i,
        {
            if i % w == w - 1 {
                c.push(TERMINATOR);
            } else {
                c.push(BLANK);
            }
            i += 1;
        }
        self.c = c;
        assert(self@ =~= blank_cells(self.spec_width(), self.spec_height()));
    }

    /// Buffer index of `(x, y)`, for coordinates that `i64` holds.
    fn index_at(&self, x: i64, y: i64) -> (r: usize)
        requires
            self.wf(),
        ensures
            r == self.index_of(x as int, y as int),
            r < self@.len(),
    {
        proof {
            lemma_cell_index_bounds(self.spec_width(), self.spec_height(), x as int, y as int);
        }
        let w = self.width as i128;
        let h = self.height as i128;
        let col: i128 = if (x as i128) < 1 { 0 } else { x as i128 - 1 };
        let up: i128 = h - 1 - y as i128;
        let row: i128 = if up < 0 { -up } else { up };
        assert(0 <= row * w <= 0x1_0000_0000_0000_0000_0000_0000_0000) by (nonlinear_arith)
            requires
                0 <= row <= 0x1_0000_0000_0000_0000,
                0 <= w <= 0x1_0000_0000,
        ;
        let idx: i128 = col + row * w;
        if idx >= self.c.len() as i128 {
            0
        } else {
            idx as usize
        }
    }

    /// Buffer index of the Cartesian point `(x, y)`.
    pub fn map_coordinate(&self, x: u32, y: u32) -> (r: usize)
        requires
            self.wf(),
        ensures
            r == self.index_of(x as int, y as int),
            r < self@.len(),
    {
        self.index_at(x as i64, y as i64)
    }

    /// Writes `ch` at the cell that drawing at `(x, y)` writes.
    pub(crate) fn plot(&mut self, x: i64, y: i64, ch: char)
        requires
            old(self).wf(),
        ensures
            final(self).wf(),
            final(self).spec_width() == old(self).spec_width(),
            final(self).spec_height() == old(self).spec_height(),
            final(self)@ == painted(
                old(self).spec_width(),
                old(self).spec_height(),
                old(self)@,
                seq![(x as int, y as int)],
                ch,
            ),
    {
        proof {
            let (w, h) = (self.spec_width(), self.spec_height());
            lemma_painted_single(w, h, self@, (x as int, y as int), ch);
            lemma_painted_wf(w, h, self@, seq![(x as int, y as int)], ch);
            lemma_draw_index_safe(w, h, x as int, y as int);
        }
        let i = if 0 <= x && x < self.width as i64 && 0 <= y && y < self.height as i64 {
            self.index_at(x, y)
        } else {
            0
        };
        self.c[i] = ch;
    }

    /// The character at the cell of `(x, y)`.
    pub fn get_pixel(&mut self, x: u32, y: u32) -> (r: char)
        requires
            old(self).wf(),
        ensures
            *final(self) == *old(self),
            r == old(self)@[old(self).index_of(x as int, y as int)],
    {
        let i = self.map_coordinate(x, y);
        self.c[i]
    }

    /// Writes `c` at the cell of `(x, y)` when `x < width` and `y < height`,
    /// else at index 0; every other cell is unchanged.
    pub fn draw_pixel(&mut self, x: u32, y: u32, c: char)
        requires
            old(self).wf(),
        ensures
            final(self).wf(),
            final(self).spec_width() == old(self).spec_width(),
            final(self).spec_height() == old(self).spec_height(),
            final(self)@ == old(self)@.update(
                draw_index(old(self).spec_width(), old(self).spec_height(), x as int, y as int),
                c,
            ),
    {
        proof {
            lemma_painted_single(self.spec_width(), self.spec_height(), self@, (x as int, y as int), c);
        }
        self.plot(x as i64, y as i64, c);
    }

    /// Width of the buffer, terminator column included.
    pub fn width(&self) -> (r: u32)
        ensures
            r == self.spec_width(),
    {
        self.width
    }

    /// Number of rows.
    pub fn height(&self) -> (r: u32)
        ensures
            r == self.spec_height(),
    {
        self.height
    }

    /// The buffer, top row first.
    pub fn cells(&self) -> (r: &Vec<char>)
        ensures
            r@ == self@,
    {
        &self.c
    }

    /// One frame of terminal output: the reset sequence, the whole buffer,
    /// and a final line terminator.
    pub fn frame(&self) -> (r: Vec<char>)
        ensures
            r@ == terminal_reset() + self@ + seq![TERMINATOR],
    {
        let mut out: Vec<char> = Vec::new();
        out.push('\x1B');
        out.push('[');
        out.push('2');
        out.push('J');
        out.push('\x1B');
        out.push('[');
        out.push('1');
        out.push(';');
        out.push('1');
        out.push('H');
        assert(out@ =~= terminal_reset());
        let mut i: usize = 0;
        while i < self.c.len()
            invariant
                i <= self@.len(),
                out@ =~= terminal_reset() + self@.take(i as int),
            decreases self@.len() - i,
        {
            out.push(self.c[i]);
            i += 1;
            assert(out@ =~= terminal_reset() + self@.take(i as int));
        }
        out.push(TERMINATOR);
        assert(self@.take(self@.len() as int) =~= self@);
        out
    }
}

} // verus!
