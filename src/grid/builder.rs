use crate::geometry::{Point, Size};
use crate::grid::Grid;
use vstd::prelude::*;

verus! {

/// Where the top-left cell of the grid is drawn on the screen.
#[derive(Clone, Copy, Debug, PartialEq, Eq, Structural)]
pub struct Cursor {
    pub point: Point,
}

/// The screen position that centres `grid`, with its clues, on a screen of
/// the given size. Blocks are two characters wide, so the grid's width is
/// not halved.
pub open spec fn centre(terminal_size: Size, grid: Grid) -> (int, int) {
    (
        terminal_size.width / 2 - grid.size.width + grid.max_clues_size.width / 2,
        terminal_size.height / 2 - grid.size.height / 2 + grid.max_clues_size.height / 2,
    )
}

impl Cursor {
    /// The place that centres the grid, with its clues, on a screen of the given size.
    pub fn centered(terminal_size: Size, grid: &Grid) -> (r: Cursor)
        requires
            terminal_size.width / 2 >= grid.size.width,
            terminal_size.height / 2 >= grid.size.height / 2,
        ensures
            r.point@ == centre(terminal_size, *grid),
    {
        let grid_width = grid.size.width;
        let grid_height = grid.size.height / 2;
        let max_clues_width = grid.max_clues_size.width / 2;
        let max_clues_height = grid.max_clues_size.height / 2;
        Cursor {
            point: Point {
                x: terminal_size.width / 2 - grid_width + max_clues_width,
                y: terminal_size.height / 2 - grid_height + max_clues_height,
            },
        }
    }
}

/// A grid with the place on the screen where it is drawn.
pub struct Builder {
    pub grid: Grid,
    pub cursor: Cursor,
}

impl Builder {
    pub fn new(terminal_size: Size, grid: Grid) -> (r: Builder)
        requires
            terminal_size.width / 2 >= grid.size.width,
            terminal_size.height / 2 >= grid.size.height / 2,
        ensures
            r.grid == grid,
            r.cursor.point@ == centre(terminal_size, grid),
    {
        let cursor = Cursor::centered(terminal_size, &grid);
        Builder { grid, cursor }
    }

    /// Whether the screen position `point` lies on the grid's cells, each of
    /// which is two characters wide.
    pub fn contains(&self, point: Point) -> (r: bool)
        ensures
            r == (self.cursor.point.y <= point.y < self.cursor.point.y + self.grid.size.height
                && self.cursor.point.x <= point.x < self.cursor.point.x + 2
                * self.grid.size.width),
    {
        let top = self.cursor.point.y as u32;
        let left = self.cursor.point.x as u32;
        let y = point.y as u32;
        let x = point.x as u32;
        top <= y && y < top + self.grid.size.height as u32 && left <= x && x < left + 2
            * self.grid.size.width as u32
    }
}

} // verus!
