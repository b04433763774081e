use crate::clues::{clue_values, clues_of, derive_clues, lemma_blank_line_has_no_clues, lemma_clues_len, Clues};
use crate::geometry::{Point, Size};
use crate::undo_redo_buffer::{replay, Operation, UndoRedoBuffer};
use vstd::prelude::*;

pub mod builder;
pub mod fill;
pub mod tools;

verus! {

/// The state of one cell of the grid.
#[derive(Clone, Copy, Debug, PartialEq, Eq, Structural)]
pub enum Cell {
    /// An unmarked cell.
    Empty,
    /// A cell marked as filled.
    Filled,
    /// A cell that may be filled, for "what if" reasoning.
    Maybed,
    /// A cell marked as certainly empty.
    Crossed,
    /// A cell touched by the measurement tool, with its place in the trace.
    Measured(Option<usize>),
}

impl Default for Cell {
    fn default() -> (r: Cell)
        ensures
            r == Cell::Empty,
    {
        Cell::Empty
    }
}

impl From<bool> for Cell {
    fn from(filled: bool) -> (r: Cell) {
        if filled {
            Cell::Filled
        } else {
            Cell::Empty
        }
    }
}

impl vstd::std_specs::convert::FromSpecImpl<bool> for Cell {
    open spec fn obeys_from_spec() -> bool {
        true
    }

    open spec fn from_spec(filled: bool) -> Cell {
        if filled {
            Cell::Filled
        } else {
            Cell::Empty
        }
    }
}

impl Cell {
    /// The 256-colour palette entry a cell is drawn in. Blank cells alternate
    /// shades in blocks of five, so that the grid is easier to count; a dark
    /// cell (under the pointer) is two entries darker.
    pub fn color_byte(&self, point: Point, dark: bool) -> (r: u8)
        ensures
            r == (match *self {
                Cell::Empty => if (point.x / 5 % 2 == 0) != (point.y / 5 % 2 == 0) {
                    237int
                } else {
                    239int
                },
                Cell::Filled => 255int,
                Cell::Crossed => 124int,
                Cell::Maybed => 39int,
                Cell::Measured(_) => 46int,
            }) - if dark {
                2int
            } else {
                0int
            },
    {
        let byte: u8 = match self {
            Cell::Empty => {
                let x_reached_point = point.x / 5 % 2 == 0;
                let y_reached_point = point.y / 5 % 2 == 0;
                if x_reached_point != y_reached_point {
                    237
                } else {
                    239
                }
            },
            Cell::Filled => 255,
            Cell::Crossed => 124,
            Cell::Maybed => 39,
            Cell::Measured(_) => 46,
        };
        if dark {
            byte - 2
        } else {
            byte
        }
    }

    /// The darker palette entry of the cell's colour.
    pub fn get_dark_color(&self) -> (r: u8)
        ensures
            r == match *self {
                Cell::Empty => 236u8,
                Cell::Filled => 253u8,
                Cell::Maybed => 38u8,
                Cell::Crossed => 88u8,
                Cell::Measured(_) => 40u8,
            },
    {
        match self {
            Cell::Empty => 236,
            Cell::Filled => 253,
            Cell::Maybed => 38,
            Cell::Crossed => 88,
            Cell::Measured(_) => 40,
        }
    }

    /// The darkest palette entry of the cell's colour.
    pub fn get_darkest_color(&self) -> (r: u8)
        ensures
            r == match *self {
                Cell::Empty => 235u8,
                Cell::Filled => 251u8,
                Cell::Maybed => 37u8,
                Cell::Crossed => 52u8,
                Cell::Measured(_) => 34u8,
            },
    {
        match self {
            Cell::Empty => 235,
            Cell::Filled => 251,
            Cell::Maybed => 37,
            Cell::Crossed => 52,
            Cell::Measured(_) => 34,
        }
    }
}

/// Only a `Filled` cell counts for clues; every other state is blank.
pub open spec fn is_filled(c: Cell) -> bool {
    c is Filled
}

/// Row `y` of a row-major cell array, as "is filled" flags.
pub open spec fn row_line(cells: Seq<Cell>, size: Size, y: int) -> Seq<bool> {
    Seq::new(size.width as nat, |x: int| is_filled(cells[size.index((x, y))]))
}

/// Column `x` of a row-major cell array, as "is filled" flags.
pub open spec fn column_line(cells: Seq<Cell>, size: Size, x: int) -> Seq<bool> {
    Seq::new(size.height as nat, |y: int| is_filled(cells[size.index((x, y))]))
}

/// The clues of row `y` of a row-major cell array.
fn get_horizontal_clues(cells: &Vec<Cell>, size: Size, y: u16) -> (r: Clues)
    requires
        cells.len() == size.area(),
        y < size.height,
    ensures
        clue_values(r@) == clues_of(row_line(cells@, size, y as int)),
{
    let mut line: Vec<bool> = Vec::new();
    let mut x: u16 = 0;
    while x < size.width
        invariant
            x <= size.width,
            y < size.height,
            cells.len() == size.area(),
            line@ == row_line(cells@, size, y as int).take(x as int),
        decreases size.width - x,
    {
        let i = size.cell_index(Point { x, y });
        line.push(cells[i] == Cell::Filled);
        assert(line@ =~= row_line(cells@, size, y as int).take(x + 1));
        x += 1;
    }
    assert(line@ =~= row_line(cells@, size, y as int));
    derive_clues(&line)
}

/// The clues of column `x` of a row-major cell array.
fn get_vertical_clues(cells: &Vec<Cell>, size: Size, x: u16) -> (r: Clues)
    requires
        cells.len() == size.area(),
        x < size.width,
    ensures
        clue_values(r@) == clues_of(column_line(cells@, size, x as int)),
{
    let mut line: Vec<bool> = Vec::new();
    let mut y: u16 = 0;
    while y < size.height
        invariant
            y <= size.height,
            x < size.width,
            cells.len() == size.area(),
            line@ == column_line(cells@, size, x as int).take(y as int),
        decreases size.height - y,
    {
        let i = size.cell_index(Point { x, y });
        line.push(cells[i] == Cell::Filled);
        assert(line@ =~= column_line(cells@, size, x as int).take(y + 1));
        y += 1;
    }
    assert(line@ =~= column_line(cells@, size, x as int));
    derive_clues(&line)
}

/// A blank grid of `n` cells.
pub open spec fn blank(n: nat) -> Seq<Cell> {
    Seq::new(n, |i: int| Cell::Empty)
}

/// The cells after marking the points of a trace in order: the `k`-th point
/// becomes `Measured(Some(k))`, a later mark overriding an earlier one.
pub open spec fn measured(cells: Seq<Cell>, size: Size, points: Seq<Point>) -> Seq<Cell>
    decreases points.len(),
{
    if points.len() == 0 {
        cells
    } else {
        measured(cells, size, points.drop_last()).update(
            size.index(points.last()@),
            Cell::Measured(Some((points.len() - 1) as usize)),
        )
    }
}

pub proof fn lemma_measured_len(cells: Seq<Cell>, size: Size, points: Seq<Point>)
    requires
        cells.len() == size.area(),
        forall|k: int| 0 <= k < points.len() ==> size.holds(#[trigger] points[k]@),
    ensures
        measured(cells, size, points).len() == cells.len(),
    decreases points.len(),
{
    if points.len() > 0 {
        lemma_measured_len(cells, size, points.drop_last());
        assert(size.holds(points[points.len() - 1]@));
        crate::geometry::lemma_index_in_range(size, points.last()@);
    }
}

/// How many clues each row of `pattern` has.
pub open spec fn row_clue_counts(pattern: Seq<Cell>, size: Size) -> Seq<nat> {
    Seq::new(size.height as nat, |y: int| clues_of(row_line(pattern, size, y)).len())
}

/// How many clues each column of `pattern` has.
pub open spec fn column_clue_counts(pattern: Seq<Cell>, size: Size) -> Seq<nat> {
    Seq::new(size.width as nat, |x: int| clues_of(column_line(pattern, size, x)).len())
}

/// The number of filled cells.
pub open spec fn count_filled(s: Seq<Cell>) -> nat
    decreases s.len(),
{
    if s.len() == 0 {
        0
    } else {
        count_filled(s.drop_last()) + if is_filled(s.last()) {
            1nat
        } else {
            0nat
        }
    }
}

/// The largest of some numbers, or zero if there are none.
pub open spec fn largest(s: Seq<nat>) -> nat
    decreases s.len(),
{
    if s.len() == 0 {
        0
    } else if largest(s.drop_last()) >= s.last() {
        largest(s.drop_last())
    } else {
        s.last()
    }
}

/// Resets every cell to `Empty`.
pub(crate) fn reset_cells(cells: &mut Vec<Cell>)
    ensures
        final(cells)@ == blank(old(cells)@.len()),
{
    let mut i: usize = 0;
    while i < cells.len()
        invariant
            i <= cells@.len() == old(cells)@.len(),
            forall|j: int| 0 <= j < i ==> cells@[j] == Cell::Empty,
        decreases cells@.len() - i,
    {
        cells.set(i, Cell::Empty);
        i += 1;
    }
    assert(cells@ =~= blank(old(cells)@.len()));
}

/// Marks the `k`-th point of a trace as `Measured(Some(k))`, in trace order.
pub fn set_measured_cells(cells: &mut Vec<Cell>, size: Size, points: &Vec<Point>)
    requires
        old(cells)@.len() == size.area(),
        forall|k: int| 0 <= k < points@.len() ==> size.holds(#[trigger] points@[k]@),
    ensures
        final(cells)@ == measured(old(cells)@, size, points@),
{
    let mut k: usize = 0;
    while k < points.len()
        invariant
            k <= points@.len(),
            old(cells)@.len() == size.area(),
            forall|j: int| 0 <= j < points@.len() ==> size.holds(#[trigger] points@[j]@),
            cells@ == measured(old(cells)@, size, points@.take(k as int)),
            cells@.len() == size.area(),
        decreases points@.len() - k,
    {
        assert(size.holds(points@[k as int]@));
        let i = size.cell_index(points[k]);
        cells.set(i, Cell::Measured(Some(k)));
        assert(points@.take(k + 1).drop_last() =~= points@.take(k as int));
        k += 1;
    }
    assert(points@.take(points@.len() as int) =~= points@);
}

/// Whether two clue sequences are equal, element by element.
fn same_clues(a: &Clues, b: &Clues) -> (r: bool)
    ensures
        r == (clue_values(a@) == clue_values(b@)),
{
    if a.len() != b.len() {
        assert(clue_values(a@).len() != clue_values(b@).len());
        return false;
    }
    let mut i: usize = 0;
    while i < a.len()
        invariant
            i <= a@.len() == b@.len(),
            forall|j: int| 0 <= j < i ==> a@[j] == b@[j],
        decreases a@.len() - i,
    {
        if a[i] != b[i] {
            assert(clue_values(a@)[i as int] != clue_values(b@)[i as int]);
            return false;
        }
        i += 1;
    }
    assert(a@ =~= b@);
    true
}

/// The outcome of comparing the live clues of each line with its solution.
pub struct SolvedClues {
    /// For each row, whether its live clues equal its solution.
    pub horizontal_clues: Vec<bool>,
    /// For each column, whether its live clues equal its solution.
    pub vertical_clues: Vec<bool>,
    /// The filled cells that lie on a solved row or a solved column, each counted once.
    pub solved_cell_count: usize,
}

/// A nonogram: the player's cells, the clues of the hidden picture, and the
/// history of the player's operations.
pub struct Grid {
    pub size: Size,
    /// The player's cells, row-major; blank at first.
    pub cells: Vec<Cell>,
    /// The clues of each row of the hidden picture.
    pub horizontal_clues_solutions: Vec<Clues>,
    /// The clues of each column of the hidden picture.
    pub vertical_clues_solutions: Vec<Clues>,
    /// Room the clues take on screen: twice the most clues of a row, and the
    /// most clues of a column.
    pub max_clues_size: Size,
    /// The number of filled cells of the hidden picture.
    pub cells_to_be_filled: usize,
    pub undo_redo_buffer: UndoRedoBuffer,
}

impl Grid {
    /// The cells are those obtained by replaying the operations in effect.
    pub open spec fn wf(&self) -> bool {
        &&& self.size.width >= 1
        &&& self.size.height >= 1
        &&& self.cells@.len() == self.size.area()
        &&& self.horizontal_clues_solutions@.len() == self.size.height
        &&& self.vertical_clues_solutions@.len() == self.size.width
        &&& self.undo_redo_buffer.wf(self.size)
        &&& self.cells@ == replay(self.size, self.undo_redo_buffer.applied())
    }

    /// The solution clues are those of the picture `pattern`.
    pub open spec fn solves(&self, pattern: Seq<Cell>) -> bool {
        &&& forall|y: int|
            0 <= y < self.size.height ==> clue_values(
                #[trigger] self.horizontal_clues_solutions@[y]@,
            ) == clues_of(row_line(pattern, self.size, y))
        &&& forall|x: int|
            0 <= x < self.size.width ==> clue_values(#[trigger] self.vertical_clues_solutions@[x]@)
                == clues_of(column_line(pattern, self.size, x))
        &&& self.cells_to_be_filled == count_filled(pattern)
    }

    /// Both grids pose the same puzzle: only the cells and the history may differ.
    pub open spec fn same_puzzle(&self, other: Grid) -> bool {
        &&& self.size == other.size
        &&& self.horizontal_clues_solutions@ == other.horizontal_clues_solutions@
        &&& self.vertical_clues_solutions@ == other.vertical_clues_solutions@
        &&& self.max_clues_size == other.max_clues_size
        &&& self.cells_to_be_filled == other.cells_to_be_filled
    }

    pub open spec fn row_solved(&self, y: int) -> bool {
        clues_of(row_line(self.cells@, self.size, y)) == clue_values(
            self.horizontal_clues_solutions@[y]@,
        )
    }

    pub open spec fn column_solved(&self, x: int) -> bool {
        clues_of(column_line(self.cells@, self.size, x)) == clue_values(
            self.vertical_clues_solutions@[x]@,
        )
    }

    /// Every row and every column has the clues of its solution.
    pub open spec fn solved(&self) -> bool {
        &&& forall|y: int| 0 <= y < self.size.height ==> #[trigger] self.row_solved(y)
        &&& forall|x: int| 0 <= x < self.size.width ==> #[trigger] self.column_solved(x)
    }

    /// Among the first `i` cells, those filled that lie on a solved row or column.
    pub open spec fn solved_cells(&self, i: int) -> nat
        decreases i,
    {
        if i <= 0 {
            0
        } else {
            let p = self.size.point_at(i - 1);
            self.solved_cells(i - 1) + if is_filled(self.cells@[i - 1]) && (self.row_solved(p.1)
                || self.column_solved(p.0)) {
                1nat
            } else {
                0nat
            }
        }
    }
}

impl Grid {
    /// Creates a grid whose solution is the picture `cells` (row-major, one
    /// cell per point); the player's cells start blank and the history empty.
    pub fn new(size: Size, cells: Vec<Cell>) -> (r: Grid)
        requires
            size.width >= 1,
            size.height >= 1,
            cells@.len() == size.area(),
        ensures
            r.wf(),
            r.size == size,
            r.solves(cells@),
            r.cells@ == blank(size.area()),
            r.undo_redo_buffer@ == (Seq::<Operation>::empty(), 0nat),
            r.max_clues_size.width == (2 * largest(row_clue_counts(cells@, size))) as u16,
            r.max_clues_size.height == largest(column_clue_counts(cells@, size)) as u16,
    {
        let ghost pattern = cells@;
        let mut cells = cells;
        let mut horizontal_clues_solutions: Vec<Clues> = Vec::new();
        let mut widest: usize = 0;
        let mut y: u16 = 0;
        while y < size.height
            invariant
                y <= size.height,
                cells@ == pattern,
                pattern.len() == size.area(),
                horizontal_clues_solutions@.len() == y,
                forall|j: int|
                    0 <= j < y ==> clue_values(#[trigger] horizontal_clues_solutions@[j]@)
                        == clues_of(row_line(pattern, size, j)),
                widest == largest(row_clue_counts(pattern, size).take(y as int)),
                widest <= size.width,
            decreases size.height - y,
        {
            let clues = get_horizontal_clues(&cells, size, y);
            proof {
                lemma_clues_len(row_line(pattern, size, y as int));
                assert(clue_values(clues@).len() == clues@.len());
                let counts = row_clue_counts(pattern, size);
                assert(counts.take(y + 1).drop_last() =~= counts.take(y as int));
                assert(counts.take(y + 1).last() == clues@.len());
            }
            if clues.len() > widest {
                widest = clues.len();
            }
            horizontal_clues_solutions.push(clues);
            y += 1;
        }
        assert(row_clue_counts(pattern, size).take(y as int) =~= row_clue_counts(pattern, size));
        let mut vertical_clues_solutions: Vec<Clues> = Vec::new();
        let mut tallest: usize = 0;
        let mut x: u16 = 0;
        while x < size.width
            invariant
                x <= size.width,
                cells@ == pattern,
                pattern.len() == size.area(),
                vertical_clues_solutions@.len() == x,
                forall|j: int|
                    0 <= j < x ==> clue_values(#[trigger] vertical_clues_solutions@[j]@)
                        == clues_of(column_line(pattern, size, j)),
                tallest == largest(column_clue_counts(pattern, size).take(x as int)),
                tallest <= size.height,
            decreases size.width - x,
        {
            let clues = get_vertical_clues(&cells, size, x);
            proof {
                lemma_clues_len(column_line(pattern, size, x as int));
                assert(clue_values(clues@).len() == clues@.len());
                let counts = column_clue_counts(pattern, size);
                assert(counts.take(x + 1).drop_last() =~= counts.take(x as int));
                assert(counts.take(x + 1).last() == clues@.len());
            }
            if clues.len() > tallest {
                tallest = clues.len();
            }
            vertical_clues_solutions.push(clues);
            x += 1;
        }
        assert(column_clue_counts(pattern, size).take(x as int) =~= column_clue_counts(pattern, size));
        let mut cells_to_be_filled: usize = 0;
        let mut i: usize = 0;
        while i < cells.len()
            invariant
                i <= cells@.len(),
                cells@ == pattern,
                cells_to_be_filled == count_filled(pattern.take(i as int)),
                cells_to_be_filled <= i,
            decreases cells@.len() - i,
        {
            assert(pattern.take(i + 1).drop_last() =~= pattern.take(i as int));
            if cells[i] == Cell::Filled {
                cells_to_be_filled += 1;
            }
            i += 1;
        }
        assert(pattern.take(i as int) =~= pattern);
        reset_cells(&mut cells);
        let max_clues_size = Size::new((widest * 2) as u16, tallest as u16);
        let undo_redo_buffer = UndoRedoBuffer::default();
        let grid = Grid {
            size,
            cells,
            horizontal_clues_solutions,
            vertical_clues_solutions,
            max_clues_size,
            cells_to_be_filled,
            undo_redo_buffer,
        };
        assert(grid.undo_redo_buffer.applied() =~= Seq::<Operation>::empty());
        grid
    }

    /// The cell at `point`.
    pub fn get_cell(&self, point: Point) -> (r: Cell)
        requires
            self.cells@.len() == self.size.area(),
            self.size.holds(point@),
        ensures
            r == self.cells@[self.size.index(point@)],
    {
        let i = self.size.cell_index(point);
        self.cells[i]
    }

    /// The cell at `point`, to be changed in place. A change made through it
    /// is not recorded in the history.
    pub fn get_mut_cell(&mut self, point: Point) -> (r: &mut Cell)
        requires
            old(self).cells@.len() == old(self).size.area(),
            old(self).size.holds(point@),
        ensures
            *r == old(self).cells@[old(self).size.index(point@)],
            final(self).cells@ == old(self).cells@.update(old(self).size.index(point@), *final(r)),
            final(self).size == old(self).size,
            final(self).horizontal_clues_solutions == old(self).horizontal_clues_solutions,
            final(self).vertical_clues_solutions == old(self).vertical_clues_solutions,
            final(self).max_clues_size == old(self).max_clues_size,
            final(self).cells_to_be_filled == old(self).cells_to_be_filled,
            final(self).undo_redo_buffer == old(self).undo_redo_buffer,
    {
        let i = self.size.cell_index(point);
        &mut self.cells[i]
    }

    /// Compares the live clues of every row and column with the solution,
    /// and counts the filled cells that lie on a solved line.
    pub fn solved_clues(&self) -> (r: SolvedClues)
        requires
            self.wf(),
        ensures
            r.horizontal_clues@ == Seq::new(self.size.height as nat, |y: int| self.row_solved(y)),
            r.vertical_clues@ == Seq::new(self.size.width as nat, |x: int| self.column_solved(x)),
            r.solved_cell_count == self.solved_cells(self.size.area() as int),
    {
        let mut horizontal_clues: Vec<bool> = Vec::new();
        let mut y: u16 = 0;
        while y < self.size.height
            invariant
                self.wf(),
                y <= self.size.height,
                horizontal_clues@ == Seq::new(y as nat, |j: int| self.row_solved(j)),
            decreases self.size.height - y,
        {
            let live = self.get_horizontal_clues(y);
            let solved = same_clues(&live, &self.horizontal_clues_solutions[y as usize]);
            horizontal_clues.push(solved);
            assert(horizontal_clues@ =~= Seq::new((y + 1) as nat, |j: int| self.row_solved(j)));
            y += 1;
        }
        let mut vertical_clues: Vec<bool> = Vec::new();
        let mut x: u16 = 0;
        while x < self.size.width
            invariant
                self.wf(),
                x <= self.size.width,
                vertical_clues@ == Seq::new(x as nat, |j: int| self.column_solved(j)),
            decreases self.size.width - x,
        {
            let live = self.get_vertical_clues(x);
            let solved = same_clues(&live, &self.vertical_clues_solutions[x as usize]);
            vertical_clues.push(solved);
            assert(vertical_clues@ =~= Seq::new((x + 1) as nat, |j: int| self.column_solved(j)));
            x += 1;
        }
        let width = self.size.width as usize;
        let mut solved_cell_count: usize = 0;
        let mut i: usize = 0;
        while i < self.cells.len()
            invariant
                self.wf(),
                width == self.size.width,
                i <= self.cells@.len(),
                horizontal_clues@ == Seq::new(self.size.height as nat, |j: int| self.row_solved(j)),
                vertical_clues@ == Seq::new(self.size.width as nat, |j: int| self.column_solved(j)),
                solved_cell_count == self.solved_cells(i as int),
                solved_cell_count <= i,
            decreases self.cells@.len() - i,
        {
            proof {
                crate::geometry::lemma_point_index(self.size, i as int);
            }
            let px = i % width;
            let py = i / width;
            if self.cells[i] == Cell::Filled && (horizontal_clues[py] || vertical_clues[px]) {
                solved_cell_count += 1;
            }
            i += 1;
        }
        SolvedClues { horizontal_clues, vertical_clues, solved_cell_count }
    }

    /// Whether every row and every column has the clues of its solution.
    pub fn is_solved(&self) -> (r: bool)
        requires
            self.wf(),
        ensures
            r == self.solved(),
    {
        let mut y: u16 = 0;
        while y < self.size.height
            invariant
                self.wf(),
                y <= self.size.height,
                forall|j: int| 0 <= j < y ==> #[trigger] self.row_solved(j),
            decreases self.size.height - y,
        {
            let live = self.get_horizontal_clues(y);
            if !same_clues(&live, &self.horizontal_clues_solutions[y as usize]) {
                assert(!self.row_solved(y as int));
                return false;
            }
            y += 1;
        }
        let mut x: u16 = 0;
        while x < self.size.width
            invariant
                self.wf(),
                x <= self.size.width,
                forall|j: int| 0 <= j < self.size.height ==> #[trigger] self.row_solved(j),
                forall|j: int| 0 <= j < x ==> #[trigger] self.column_solved(j),
            decreases self.size.width - x,
        {
            let live = self.get_vertical_clues(x);
            if !same_clues(&live, &self.vertical_clues_solutions[x as usize]) {
                assert(!self.column_solved(x as int));
                return false;
            }
            x += 1;
        }
        true
    }

    /// The live clues of row `y`.
    pub fn get_horizontal_clues(&self, y: u16) -> (r: Clues)
        requires
            self.cells@.len() == self.size.area(),
            y < self.size.height,
        ensures
            clue_values(r@) == clues_of(row_line(self.cells@, self.size, y as int)),
    {
        get_horizontal_clues(&self.cells, self.size, y)
    }

    /// The live clues of column `x`.
    pub fn get_vertical_clues(&self, x: u16) -> (r: Clues)
        requires
            self.cells@.len() == self.size.area(),
            x < self.size.width,
        ensures
            clue_values(r@) == clues_of(column_line(self.cells@, self.size, x as int)),
    {
        get_vertical_clues(&self.cells, self.size, x)
    }
}

/// A blank grid has no clues on any row or column.
pub proof fn lemma_blank_grid_has_no_clues(size: Size)
    ensures
        forall|y: int|
            0 <= y < size.height ==> #[trigger] clues_of(row_line(blank(size.area()), size, y))
                == Seq::<nat>::empty(),
        forall|x: int|
            0 <= x < size.width ==> #[trigger] clues_of(column_line(blank(size.area()), size, x))
                == Seq::<nat>::empty(),
{
    let cells = blank(size.area());
    assert forall|y: int| 0 <= y < size.height implies #[trigger] clues_of(
        row_line(cells, size, y),
    ) == Seq::<nat>::empty() by {
        let line = row_line(cells, size, y);
        assert forall|x: int| 0 <= x < line.len() implies !line[x] by {
            crate::geometry::lemma_index_in_range(size, (x, y));
        }
        lemma_blank_line_has_no_clues(line);
    }
    assert forall|x: int| 0 <= x < size.width implies #[trigger] clues_of(
        column_line(cells, size, x),
    ) == Seq::<nat>::empty() by {
        let line = column_line(cells, size, x);
        assert forall|y: int| 0 <= y < line.len() implies !line[y] by {
            crate::geometry::lemma_index_in_range(size, (x, y));
        }
        lemma_blank_line_has_no_clues(line);
    }
}

proof fn lemma_count_filled_alike(a: Seq<Cell>, b: Seq<Cell>)
    requires
        a.len() == b.len(),
        forall|i: int| 0 <= i < a.len() ==> is_filled(a[i]) == is_filled(b[i]),
    ensures
        count_filled(a) == count_filled(b),
    decreases a.len(),
{
    if a.len() > 0 {
        lemma_count_filled_alike(a.drop_last(), b.drop_last());
    }
}

proof fn lemma_solved_cells_all(grid: Grid, i: int)
    requires
        grid.wf(),
        grid.solved(),
        0 <= i <= grid.cells@.len(),
    ensures
        grid.solved_cells(i) == count_filled(grid.cells@.take(i)),
    decreases i,
{
    if i > 0 {
        lemma_solved_cells_all(grid, i - 1);
        crate::geometry::lemma_point_index(grid.size, i - 1);
        assert(grid.cells@.take(i).drop_last() =~= grid.cells@.take(i - 1));
        let p = grid.size.point_at(i - 1);
        assert(grid.row_solved(p.1));
    }
}

/// A grid whose live cells are filled exactly where the picture it was built
/// from is filled reports every line solved, and every filled cell of the
/// picture as solved.
pub proof fn lemma_picture_is_solved(grid: Grid, pattern: Seq<Cell>)
    requires
        grid.wf(),
        grid.solves(pattern),
        pattern.len() == grid.size.area(),
        forall|i: int| 0 <= i < pattern.len() ==> is_filled(grid.cells@[i]) == is_filled(pattern[i]),
    ensures
        grid.solved(),
        grid.solved_cells(grid.size.area() as int) == grid.cells_to_be_filled,
{
    let size = grid.size;
    assert forall|y: int| 0 <= y < size.height implies #[trigger] grid.row_solved(y) by {
        assert forall|x: int| 0 <= x < size.width implies row_line(grid.cells@, size, y)[x]
            == row_line(pattern, size, y)[x] by {
            crate::geometry::lemma_index_in_range(size, (x, y));
        }
        assert(row_line(grid.cells@, size, y) =~= row_line(pattern, size, y));
    }
    assert forall|x: int| 0 <= x < size.width implies #[trigger] grid.column_solved(x) by {
        assert forall|y: int| 0 <= y < size.height implies column_line(grid.cells@, size, x)[y]
            == column_line(pattern, size, x)[y] by {
            crate::geometry::lemma_index_in_range(size, (x, y));
        }
        assert(column_line(grid.cells@, size, x) =~= column_line(pattern, size, x));
    }
    lemma_solved_cells_all(grid, size.area() as int);
    assert(grid.cells@.take(size.area() as int) =~= grid.cells@);
    lemma_count_filled_alike(grid.cells@, pattern);
}

} // verus!
