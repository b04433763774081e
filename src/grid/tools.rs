use crate::geometry::Point;
use crate::grid::fill::{flood_fill, flooded};
use crate::grid::{blank, measured, reset_cells, set_measured_cells, Cell, Grid};
use crate::undo_redo_buffer::{after_push, lemma_push_wf, Operation};
use vstd::prelude::*;

verus! {

impl Grid {
    /// Sets the cell at `point` to `cell`, and records it.
    pub fn set_cell(&mut self, point: Point, cell: Cell)
        requires
            old(self).wf(),
            old(self).size.holds(point@),
            old(self).undo_redo_buffer.buffer@.len() < usize::MAX,
        ensures
            final(self).wf(),
            final(self).same_puzzle(*old(self)),
            final(self).cells@ == old(self).cells@.update(old(self).size.index(point@), cell),
            final(self).undo_redo_buffer@ == after_push(
                old(self).undo_redo_buffer@,
                Operation::SetCell { point, cell },
            ),
    {
        let i = self.size.cell_index(point);
        self.cells.set(i, cell);
        self.undo_redo_buffer.push(Operation::SetCell { point, cell });
        proof {
            lemma_push_wf(*old(self), *self, Operation::SetCell { point, cell });
        }
    }

    /// Flood-fills the 4-connected region around `point` of cells equal to
    /// the one at `point` with `fill_cell`, and records it. Returns `false`,
    /// changing and recording nothing, when that cell already is `fill_cell`.
    pub fn fill(&mut self, point: Point, fill_cell: Cell) -> (r: bool)
        requires
            old(self).wf(),
            old(self).size.holds(point@),
            old(self).undo_redo_buffer.buffer@.len() < usize::MAX,
        ensures
            final(self).wf(),
            final(self).same_puzzle(*old(self)),
            ({
                let first_cell = old(self).cells@[old(self).size.index(point@)];
                &&& r == (first_cell != fill_cell)
                &&& r ==> final(self).cells@ == flooded(
                    old(self).size,
                    old(self).cells@,
                    point@,
                    first_cell,
                    fill_cell,
                )
                &&& r ==> final(self).undo_redo_buffer@ == after_push(
                    old(self).undo_redo_buffer@,
                    Operation::Fill { point, first_cell, fill_cell },
                )
                &&& !r ==> *final(self) == *old(self)
            }),
    {
        let first_cell = self.get_cell(point);
        if first_cell == fill_cell {
            return false;
        }
        flood_fill(&mut self.cells, self.size, point, first_cell, fill_cell);
        self.undo_redo_buffer.push(Operation::Fill { point, first_cell, fill_cell });
        proof {
            lemma_push_wf(*old(self), *self, Operation::Fill { point, first_cell, fill_cell });
        }
        true
    }

    /// Marks the `k`-th point of the trace as `Measured(Some(k))`, and records
    /// the trace.
    pub fn measure(&mut self, points: Vec<Point>)
        requires
            old(self).wf(),
            forall|k: int| 0 <= k < points@.len() ==> old(self).size.holds(#[trigger] points@[k]@),
            old(self).undo_redo_buffer.buffer@.len() < usize::MAX,
        ensures
            final(self).wf(),
            final(self).same_puzzle(*old(self)),
            final(self).cells@ == measured(old(self).cells@, old(self).size, points@),
            final(self).undo_redo_buffer@ == after_push(
                old(self).undo_redo_buffer@,
                Operation::Measure(points),
            ),
    {
        set_measured_cells(&mut self.cells, self.size, &points);
        let ghost op = Operation::Measure(points);
        self.undo_redo_buffer.push(Operation::Measure(points));
        proof {
            lemma_push_wf(*old(self), *self, op);
        }
    }

    /// Resets every cell to `Empty`, and records it.
    pub fn clear(&mut self)
        requires
            old(self).wf(),
            old(self).undo_redo_buffer.buffer@.len() < usize::MAX,
        ensures
            final(self).wf(),
            final(self).same_puzzle(*old(self)),
            final(self).cells@ == blank(old(self).size.area()),
            final(self).undo_redo_buffer@ == after_push(
                old(self).undo_redo_buffer@,
                Operation::Clear,
            ),
    {
        reset_cells(&mut self.cells);
        self.undo_redo_buffer.push(Operation::Clear);
        proof {
            lemma_push_wf(*old(self), *self, Operation::Clear);
        }
    }
}

} // verus!
