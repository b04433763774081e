use vstd::prelude::*;

verus! {

/// A position on the grid: `x` is the column, `y` the row.
#[derive(Clone, Copy, Debug, PartialEq, Eq, Structural)]
pub struct Point {
    pub x: u16,
    pub y: u16,
}

/// The extent of a grid, in cells.
#[derive(Clone, Copy, Debug, PartialEq, Eq, Structural)]
pub struct Size {
    pub width: u16,
    pub height: u16,
}

impl Point {
    pub open spec fn view(self) -> (int, int) {
        (self.x as int, self.y as int)
    }
}

impl Size {
    pub fn new(width: u16, height: u16) -> (r: Size)
        ensures
            r.width == width,
            r.height == height,
    {
        Size { width, height }
    }

    /// The number of cells of a grid of this size.
    pub open spec fn area(self) -> nat {
        self.width as nat * self.height as nat
    }

    pub fn product(&self) -> (r: u32)
        ensures
            r == self.area(),
    {
        proof {
            lemma_area_bound(self.width as int, self.height as int);
        }
        self.width as u32 * self.height as u32
    }

    /// The position of the cell at `p` in the row-major cell array.
    pub fn cell_index(&self, p: Point) -> (r: usize)
        requires
            self.holds(p@),
        ensures
            r == self.index(p@),
            r < self.area(),
    {
        proof {
            lemma_index_in_range(*self, p@);
            lemma_area_bound(self.width as int, self.height as int);
            assert(p.y as int * self.width as int <= p.y as int * self.width as int + p.x as int);
        }
        p.y as usize * self.width as usize + p.x as usize
    }

    /// Whether `p` lies on a grid of this size.
    pub open spec fn holds(self, p: (int, int)) -> bool {
        0 <= p.0 < self.width && 0 <= p.1 < self.height
    }

    /// The position of the cell at `p` in the row-major cell array.
    pub open spec fn index(self, p: (int, int)) -> int {
        p.1 * self.width + p.0
    }

    /// The point whose cell sits at position `i` of the row-major cell array.
    pub open spec fn point_at(self, i: int) -> (int, int) {
        (i % self.width as int, i / self.width as int)
    }
}

pub proof fn lemma_area_bound(w: int, h: int)
    requires
        0 <= w <= u16::MAX,
        0 <= h <= u16::MAX,
    ensures
        w * h <= u32::MAX,
{
    assert(w * h <= u16::MAX * u16::MAX) by (nonlinear_arith)
        requires
            0 <= w <= u16::MAX,
            0 <= h <= u16::MAX,
    ;
}

/// A point of the grid has its cell inside the cell array.
pub proof fn lemma_index_in_range(size: Size, p: (int, int))
    requires
        size.holds(p),
    ensures
        0 <= size.index(p) < size.area(),
{
    let w = size.width as int;
    let h = size.height as int;
    assert(p.1 * w + w <= w * h) by (nonlinear_arith)
        requires
            0 <= p.0 < w,
            0 <= p.1 < h,
    ;
    assert(0 <= p.1 * w) by (nonlinear_arith)
        requires
            0 <= p.0 < w,
            0 <= p.1 < h,
    ;
}

/// Positions of the cell array and points of the grid correspond one to one.
pub proof fn lemma_index_point(size: Size, p: (int, int))
    requires
        size.holds(p),
    ensures
        size.point_at(size.index(p)) == p,
{
    let w = size.width as int;
    vstd::arithmetic::div_mod::lemma_fundamental_div_mod_converse(p.1 * w + p.0, w, p.1, p.0);
}

pub proof fn lemma_point_index(size: Size, i: int)
    requires
        size.width > 0,
        0 <= i < size.area(),
    ensures
        size.holds(size.point_at(i)),
        size.index(size.point_at(i)) == i,
{
    let w = size.width as int;
    let h = size.height as int;
    vstd::arithmetic::div_mod::lemma_fundamental_div_mod(i, w);
    let (x, y) = (i % w, i / w);
    assert(0 <= x < w);
    assert(y < h) by {
        if y >= h {
            assert(y * w >= h * w) by (nonlinear_arith)
                requires
                    y >= h,
                    w > 0,
            ;
            assert(w * y == y * w) by (nonlinear_arith);
        }
    }
    assert(y >= 0) by {
        vstd::arithmetic::div_mod::lemma_div_pos_is_pos(i, w);
    }
}

/// Distinct points of the grid have distinct cells.
pub proof fn lemma_index_injective(size: Size, p: (int, int), q: (int, int))
    requires
        size.holds(p),
        size.holds(q),
        p != q,
    ensures
        size.index(p) != size.index(q),
{
    lemma_index_point(size, p);
    lemma_index_point(size, q);
}

} // verus!
