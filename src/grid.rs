use vstd::prelude::*;
use crate::strings::{chars_of, push_char};

verus! {

/// A foreground color.
#[derive(Debug, Clone, Copy, PartialEq, Eq, Structural)]
pub enum Color {
    White,
    Red,
    Rgb(u8, u8, u8),
}

/// A color laid over the half-open range `[start, end)` of the grid's row-major positions.
#[derive(Debug, Clone, Copy, PartialEq, Eq, Structural)]
pub struct ColoringHint {
    pub start: usize,
    pub end: usize,
    pub color: Color,
}

/// One step of painting a grid on a terminal: switch the foreground color, or write a
/// character at the next position.
#[derive(Debug, Clone, Copy, PartialEq, Eq, Structural)]
pub enum PaintOp {
    SetColor(Color),
    Put(char),
}

/// The grid after writing `c` at column `x` of row `y`; unchanged when that is outside.
pub open spec fn put_cell(cells: Seq<char>, w: int, h: int, x: int, y: int, c: char) -> Seq<char> {
    if 0 <= x < w && 0 <= y < h {
        cells.update(x + y * w, c)
    } else {
        cells
    }
}

/// The grid after writing `s` left to right from column `x` of row `y`, one cell per
/// character; characters that fall outside are dropped.
pub open spec fn put_chars(cells: Seq<char>, w: int, h: int, x: int, y: int, s: Seq<char>) -> Seq<char>
    decreases s.len(),
{
    if s.len() == 0 {
        cells
    } else {
        put_cell(put_chars(cells, w, h, x, y, s.drop_last()), w, h, x + s.len() - 1, y, s.last())
    }
}

pub open spec fn covers(hint: ColoringHint, i: int) -> bool {
    hint.start <= i < hint.end
}

/// The color of the last recorded of the first `k` hints that covers position `i`.
pub open spec fn cover_color(hints: Seq<ColoringHint>, k: int, i: int) -> Option<Color>
    decreases k,
{
    if k <= 0 {
        None
    } else if covers(hints[k - 1], i) {
        Some(hints[k - 1].color)
    } else {
        cover_color(hints, k - 1, i)
    }
}

/// The color change before position `i`: the color of the last recorded hint covering it;
/// else white, where the position before it was covered; else none.
pub open spec fn position_ops(hints: Seq<ColoringHint>, i: int) -> Seq<PaintOp> {
    match cover_color(hints, hints.len() as int, i) {
        Some(c) => seq![PaintOp::SetColor(c)],
        None => if i != 0 && cover_color(hints, hints.len() as int, i - 1) is Some {
            seq![PaintOp::SetColor(Color::White)]
        } else {
            Seq::empty()
        },
    }
}

pub open spec fn put_op(c: char) -> PaintOp {
    PaintOp::Put(c)
}

/// The painting of the first `n` cells: at each position its color changes, then its character.
pub open spec fn paint_prefix(cells: Seq<char>, hints: Seq<ColoringHint>, n: int) -> Seq<PaintOp>
    decreases n,
{
    if n <= 0 {
        Seq::empty()
    } else {
        paint_prefix(cells, hints, n - 1) + position_ops(hints, n - 1)
            + seq![put_op(cells[n - 1])]
    }
}

pub proof fn lemma_put_chars_outside(cells: Seq<char>, w: int, h: int, x: int, y: int, s: Seq<char>)
    requires
        x < 0 || x >= w || y < 0 || y >= h,
        x >= 0,
    ensures
        put_chars(cells, w, h, x, y, s) == cells,
    decreases s.len(),
{
    if s.len() > 0 {
        lemma_put_chars_outside(cells, w, h, x, y, s.drop_last());
    }
}

/// Writing a string from column `x` of row `y` changes exactly the positions of that row
/// from column `x` on that hold one of its characters, each to that character; every other
/// position, and everything when the row is outside the grid, stays as it was.
pub proof fn lemma_put_chars_cells(
    cells: Seq<char>,
    w: int,
    h: int,
    x: int,
    y: int,
    s: Seq<char>,
    p: int,
)
    requires
        0 <= x,
        0 <= w,
        0 <= h,
        cells.len() == w * h,
        0 <= p < cells.len(),
    ensures
        put_chars(cells, w, h, x, y, s).len() == cells.len(),
        put_chars(cells, w, h, x, y, s)[p] == if 0 <= y < h && p / w == y && x <= p % w < x
            + s.len() {
            s[p % w - x]
        } else {
            cells[p]
        },
    decreases s.len(),
{
    assert(w > 0) by (nonlinear_arith)
        requires
            cells.len() == w * h,
            0 <= p < cells.len(),
            0 <= w,
            0 <= h,
    ;
    vstd::arithmetic::div_mod::lemma_fundamental_div_mod(p, w);
    vstd::arithmetic::div_mod::lemma_mod_pos_bound(p, w);
    if s.len() > 0 {
        let n = s.len() as int;
        lemma_put_chars_cells(cells, w, h, x, y, s.drop_last(), p);
        let prev = put_chars(cells, w, h, x, y, s.drop_last());
        let a = x + n - 1;
        if 0 <= a < w && 0 <= y < h {
            let idx = a + y * w;
            assert(idx < w * h) by (nonlinear_arith)
                requires
                    0 <= a < w,
                    0 <= y < h,
                    idx == a + y * w,
            ;
            assert(0 <= y * w) by (nonlinear_arith)
                requires
                    0 <= y,
                    0 <= w,
            ;
            assert(w * h == h * w) by (nonlinear_arith);
            lemma_put_chars_cells(cells, w, h, x, y, s.drop_last(), idx);
            if p == idx {
                vstd::arithmetic::div_mod::lemma_fundamental_div_mod_converse(p, w, y, a);
            } else {
                if p / w == y && p % w == a {
                    assert(p == w * y + a);
                    assert(w * y == y * w) by (nonlinear_arith);
                }
            }
        }
    }
}

/// A fixed-size character grid, row-major, with the color hints recorded since it was
/// last cleared.
pub struct CharGrid {
    buffer: Vec<char>,
    width: usize,
    height: usize,
    hints: Vec<ColoringHint>,
}

impl CharGrid {
    /// The characters, row by row.
    pub closed spec fn cells(&self) -> Seq<char> {
        self.buffer@
    }

    pub closed spec fn grid_width(&self) -> nat {
        self.width as nat
    }

    pub closed spec fn grid_height(&self) -> nat {
        self.height as nat
    }

    /// The color hints, in the order they were recorded.
    pub closed spec fn hint_list(&self) -> Seq<ColoringHint> {
        self.hints@
    }

    /// The grid holds exactly one character per position.
    pub open spec fn wf(&self) -> bool {
        self.cells().len() == self.grid_width() * self.grid_height()
    }

    /// A `width` by `height` grid of spaces with no hints.
    pub fn new(width: usize, height: usize) -> (r: Self)
        requires
            width * height <= usize::MAX,
        ensures
            r.wf(),
            r.grid_width() == width,
            r.grid_height() == height,
            r.cells() == Seq::new((width * height) as nat, |i: int| ' '),
            r.hint_list() == Seq::<ColoringHint>::empty(),
    {
        let n: usize = width * height;
        let buffer = vec![' '; n];
        let r = CharGrid { buffer, width, height, hints: Vec::new() };
        assert(r.cells() =~= Seq::new((width * height) as nat, |i: int| ' '));
        r
    }

    /// Gives the grid new dimensions, filled with spaces; earlier contents are dropped.
    pub fn resize(&mut self, width: usize, height: usize)
        requires
            width * height <= usize::MAX,
        ensures
            final(self).wf(),
            final(self).grid_width() == width,
            final(self).grid_height() == height,
            final(self).cells() == Seq::new((width * height) as nat, |i: int| ' '),
            final(self).hint_list() == old(self).hint_list(),
    {
        let n: usize = width * height;
        self.width = width;
        self.height = height;
        self.buffer = vec![' '; n];
        assert(self.cells() =~= Seq::new((width * height) as nat, |i: int| ' '));
    }

    /// Writes `c` at column `x` of row `y`; does nothing where that is outside the grid.
    pub fn put_char(&mut self, x: usize, y: usize, c: char)
        requires
            old(self).wf(),
        ensures
            final(self).wf(),
            final(self).grid_width() == old(self).grid_width(),
            final(self).grid_height() == old(self).grid_height(),
            final(self).hint_list() == old(self).hint_list(),
            final(self).cells() == put_cell(
                old(self).cells(),
                old(self).grid_width() as int,
                old(self).grid_height() as int,
                x as int,
                y as int,
                c,
            ),
    {
        let n = self.buffer.len();
        if x < self.width && y < self.height {
            proof {
                let w = self.width as int;
                let h = self.height as int;
                assert(x + y * w < w * h) by (nonlinear_arith)
                    requires
                        0 <= x < w,
                        0 <= y < h,
                ;
                assert(0 <= y * w) by (nonlinear_arith)
                    requires
                        0 <= y,
                        0 <= w,
                ;
                assert(w * h == h * w) by (nonlinear_arith);
            }
            let idx = x + y * self.width;
            self.buffer.set(idx, c);
        }
    }

    /// Writes `s` left to right from column `x` of row `y`, one `put_char` per character;
    /// characters that fall outside the grid are dropped, not wrapped.
    pub fn put_string(&mut self, x: usize, y: usize, s: &str)
        requires
            old(self).wf(),
        ensures
            final(self).wf(),
            final(self).grid_width() == old(self).grid_width(),
            final(self).grid_height() == old(self).grid_height(),
            final(self).hint_list() == old(self).hint_list(),
            final(self).cells() == put_chars(
                old(self).cells(),
                old(self).grid_width() as int,
                old(self).grid_height() as int,
                x as int,
                y as int,
                s@,
            ),
            x >= old(self).grid_width() || y >= old(self).grid_height() ==> final(self).cells()
                == old(self).cells(),
    {
        let cs = chars_of(s);
        let ghost w = self.width as int;
        let ghost h = self.height as int;
        let ghost start = self.cells();
        let mut i: usize = 0;
        while i < cs.len()
            invariant
                self.wf(),
                i <= cs@.len(),
                cs@ == s@,
                w == self.grid_width(),
                h == self.grid_height(),
                self.hint_list() == old(self).hint_list(),
                start == old(self).cells(),
                self.cells() == put_chars(start, w, h, x as int, y as int, cs@.take(i as int)),
            decreases cs@.len() - i,
        {
            if x <= usize::MAX - i {
                self.put_char(x + i, y, cs[i]);
            }
            i = i + 1;
            proof {
                let t = cs@.take(i as int);
                assert(t.drop_last() =~= cs@.take(i - 1));
                assert(t.last() == cs@[i - 1]);
            }
        }
        proof {
            assert(cs@.take(cs@.len() as int) =~= s@);
            if x >= w || y >= h {
                lemma_put_chars_outside(start, w, h, x as int, y as int, s@);
            }
        }
    }

    /// Sets every cell to `c` and drops all color hints.
    pub fn clear(&mut self, c: char)
        requires
            old(self).wf(),
        ensures
            final(self).wf(),
            final(self).grid_width() == old(self).grid_width(),
            final(self).grid_height() == old(self).grid_height(),
            final(self).cells() == Seq::new(old(self).cells().len(), |i: int| c),
            final(self).hint_list() == Seq::<ColoringHint>::empty(),
    {
        self.hints.clear();
        let mut i: usize = 0;
        while i < self.buffer.len()
            invariant
                self.wf(),
                self.width == old(self).width,
                self.height == old(self).height,
                self.hints@ == Seq::<ColoringHint>::empty(),
                i <= self.buffer@.len(),
                self.buffer@.len() == old(self).buffer@.len(),
                forall|k: int| 0 <= k < i ==> self.buffer@[k] == c,
            decreases self.buffer@.len() - i,
        {
            self.buffer.set(i, c);
            i = i + 1;
        }
        assert(self.cells() =~= Seq::new(old(self).cells().len(), |i: int| c));
    }

    /// Records a color for the positions `[start, end)`; hints are kept in order, neither
    /// merged nor deduplicated.
    pub fn color(&mut self, start: usize, end: usize, color: Color)
        ensures
            final(self).cells() == old(self).cells(),
            final(self).grid_width() == old(self).grid_width(),
            final(self).grid_height() == old(self).grid_height(),
            final(self).hint_list() == old(self).hint_list().push(
                ColoringHint { start, end, color },
            ),
    {
        self.hints.push(ColoringHint { start, end, color });
    }

    pub fn width(&self) -> (r: usize)
        ensures
            r == self.grid_width(),
    {
        self.width
    }

    pub fn height(&self) -> (r: usize)
        ensures
            r == self.grid_height(),
    {
        self.height
    }

    /// The color hints recorded since the grid was last cleared.
    pub fn hints(&self) -> (r: &Vec<ColoringHint>)
        ensures
            r@ == self.hint_list(),
    {
        &self.hints
    }

    /// The grid as one string, row after row.
    pub fn to_string(&self) -> (r: String)
        ensures
            r@ == self.cells(),
    {
        let mut s = String::new();
        let mut i: usize = 0;
        while i < self.buffer.len()
            invariant
                i <= self.buffer@.len(),
                s@ == self.buffer@.take(i as int),
            decreases self.buffer@.len() - i,
        {
            push_char(&mut s, self.buffer[i]);
            i = i + 1;
            assert(s@ =~= self.buffer@.take(i as int));
        }
        assert(self.buffer@.take(i as int) =~= self.buffer@);
        s
    }

    /// The color of the last recorded hint that covers position `i`, if any.
    fn cover_color_at(&self, i: usize) -> (r: Option<Color>)
        ensures
            r == cover_color(self.hints@, self.hints@.len() as int, i as int),
    {
        let mut k: usize = self.hints.len();
        while k > 0
            invariant
                k <= self.hints@.len(),
                cover_color(self.hints@, self.hints@.len() as int, i as int) == cover_color(
                    self.hints@,
                    k as int,
                    i as int,
                ),
            decreases k,
        {
            let hint = self.hints[k - 1];
            if hint.start <= i && i < hint.end {
                return Some(hint.color);
            }
            k = k - 1;
        }
        None
    }

    /// How the grid is painted: for each position, the color of the last recorded hint
    /// that covers it, or a return to white at a position that no hint covers right after
    /// one that was covered; then its character.
    pub fn paint_ops(&self) -> (r: Vec<PaintOp>)
        ensures
            r@ == paint_prefix(self.cells(), self.hint_list(), self.cells().len() as int),
    {
        let mut ops: Vec<PaintOp> = Vec::new();
        let mut i: usize = 0;
        while i < self.buffer.len()
            invariant
                i <= self.buffer@.len(),
                ops@ == paint_prefix(self.buffer@, self.hints@, i as int),
            decreases self.buffer@.len() - i,
        {
            let ghost before = ops@;
            match self.cover_color_at(i) {
                Some(c) => ops.push(PaintOp::SetColor(c)),
                None => {
                    if i != 0 && self.cover_color_at(i - 1).is_some() {
                        ops.push(PaintOp::SetColor(Color::White));
                    }
                },
            }
            let ghost j = i as int;
            assert(ops@ =~= before + position_ops(self.hints@, j));
            ops.push(PaintOp::Put(self.buffer[i]));
            i = i + 1;
            assert(paint_prefix(self.buffer@, self.hints@, j + 1) == paint_prefix(self.buffer@, self.hints@, j)
                + position_ops(self.hints@, j) + seq![put_op(self.buffer@[j])]);
            assert(ops@ =~= paint_prefix(self.buffer@, self.hints@, i as int));
        }
        ops
    }
}

} // verus!
