use crate::geometry::{Point, Size};
use crate::grid::fill::{flood_fill, flooded};
use crate::grid::{blank, measured, reset_cells, set_measured_cells, Cell, Grid};
use vstd::prelude::*;

verus! {

/// One recorded change of the grid.
#[derive(Debug)]
pub enum Operation {
    /// Sets the cell at `point` to `cell`.
    SetCell { point: Point, cell: Cell },
    /// Marks each point of the trace as measured, with its place in the trace.
    Measure(Vec<Point>),
    /// Resets every cell to `Empty`.
    Clear,
    /// Flood-fills the region of `first_cell` around `point` with `fill_cell`.
    Fill { point: Point, first_cell: Cell, fill_cell: Cell },
}

impl Operation {
    /// Every point the operation names lies on a grid of the given size.
    pub open spec fn fits(self, size: Size) -> bool {
        match self {
            Operation::SetCell { point, .. } => size.holds(point@),
            Operation::Measure(points) => forall|k: int|
                0 <= k < points@.len() ==> size.holds(#[trigger] points@[k]@),
            Operation::Clear => true,
            Operation::Fill { point, .. } => size.holds(point@),
        }
    }
}

/// The cells after applying `op` to `cells`.
pub open spec fn apply(size: Size, cells: Seq<Cell>, op: Operation) -> Seq<Cell> {
    match op {
        Operation::SetCell { point, cell } => cells.update(size.index(point@), cell),
        Operation::Measure(points) => measured(cells, size, points@),
        Operation::Clear => blank(cells.len()),
        Operation::Fill { point, first_cell, fill_cell } => flooded(
            size,
            cells,
            point@,
            first_cell,
            fill_cell,
        ),
    }
}

/// The cells obtained by applying `ops` in order to a blank grid.
pub open spec fn replay(size: Size, ops: Seq<Operation>) -> Seq<Cell>
    decreases ops.len(),
{
    if ops.len() == 0 {
        blank(size.area())
    } else {
        apply(size, replay(size, ops.drop_last()), ops.last())
    }
}

/// An operation keeps the number of cells.
pub proof fn lemma_apply_len(size: Size, cells: Seq<Cell>, op: Operation)
    requires
        cells.len() == size.area(),
        op.fits(size),
    ensures
        apply(size, cells, op).len() == cells.len(),
{
    match op {
        Operation::Measure(points) => crate::grid::lemma_measured_len(cells, size, points@),
        Operation::SetCell { point, .. } => crate::geometry::lemma_index_in_range(size, point@),
        _ => {},
    }
}

/// A replay yields one cell for each point of the grid.
pub proof fn lemma_replay_len(size: Size, ops: Seq<Operation>)
    requires
        forall|k: int| 0 <= k < ops.len() ==> (#[trigger] ops[k]).fits(size),
    ensures
        replay(size, ops).len() == size.area(),
    decreases ops.len(),
{
    if ops.len() > 0 {
        lemma_replay_len(size, ops.drop_last());
        assert(ops.last().fits(size));
        lemma_apply_len(size, replay(size, ops.drop_last()), ops.last());
    }
}

/// A history as recorded operations and a play-head.
pub type History = (Seq<Operation>, nat);

/// The history after recording `op`: the undone tail is dropped first.
pub open spec fn after_push(h: History, op: Operation) -> History {
    (h.0.take(h.1 as int).push(op), h.1 + 1)
}

/// The history after an undo: one step back, if there is one.
pub open spec fn after_undo(h: History) -> History {
    if h.1 > 0 {
        (h.0, (h.1 - 1) as nat)
    } else {
        h
    }
}

/// The history after a redo: one step forward, if there is one.
pub open spec fn after_redo(h: History) -> History {
    if h.1 < h.0.len() {
        (h.0, h.1 + 1)
    } else {
        h
    }
}

/// The history after recording each of `ops` in order.
pub open spec fn push_all(h: History, ops: Seq<Operation>) -> History
    decreases ops.len(),
{
    if ops.len() == 0 {
        h
    } else {
        after_push(push_all(h, ops.drop_last()), ops.last())
    }
}

/// The history after `k` undos.
pub open spec fn undo_times(h: History, k: nat) -> History
    decreases k,
{
    if k == 0 {
        h
    } else {
        after_undo(undo_times(h, (k - 1) as nat))
    }
}

proof fn lemma_push_all_fresh(ops: Seq<Operation>)
    ensures
        push_all((Seq::empty(), 0), ops) == (ops, ops.len()),
    decreases ops.len(),
{
    if ops.len() > 0 {
        lemma_push_all_fresh(ops.drop_last());
        assert(ops.drop_last().take(ops.len() - 1).push(ops.last()) =~= ops);
    }
}

proof fn lemma_undo_times(ops: Seq<Operation>, n: nat, k: nat)
    requires
        k <= n,
    ensures
        undo_times((ops, n), k) == (ops, (n - k) as nat),
    decreases k,
{
    if k > 0 {
        lemma_undo_times(ops, n, (k - 1) as nat);
    }
}

/// Recording `n` operations, undoing `k` of them and recording one more
/// leaves the first `n - k` operations and the new one, `n - k + 1` in all,
/// with nothing left to redo: the undone ones are gone.
pub proof fn lemma_branch_discard(ops: Seq<Operation>, k: nat, op: Operation)
    requires
        k <= ops.len(),
    ensures
        ({
            let h = after_push(undo_times(push_all((Seq::empty(), 0), ops), k), op);
            &&& h.0 == ops.take(ops.len() - k).push(op)
            &&& h.0.len() == ops.len() - k + 1
            &&& h.1 == h.0.len()
            &&& after_redo(h) == h
        }),
{
    lemma_push_all_fresh(ops);
    lemma_undo_times(ops, ops.len(), k);
}

/// The operations applied to the grid, and a play-head telling how many of
/// them are in effect; the ones past it can be redone.
#[derive(Debug)]
pub struct UndoRedoBuffer {
    pub buffer: Vec<Operation>,
    pub index: usize,
}

impl Default for UndoRedoBuffer {
    fn default() -> (r: UndoRedoBuffer)
        ensures
            r@ == (Seq::<Operation>::empty(), 0nat),
    {
        UndoRedoBuffer { buffer: Vec::new(), index: 0 }
    }
}

impl UndoRedoBuffer {
    pub open spec fn view(&self) -> History {
        (self.buffer@, self.index as nat)
    }

    /// The play-head lies within the buffer and every operation fits the grid.
    pub open spec fn wf(&self, size: Size) -> bool {
        &&& self.index <= self.buffer@.len()
        &&& forall|k: int| 0 <= k < self.buffer@.len() ==> (#[trigger] self.buffer@[k]).fits(size)
    }

    /// The operations in effect.
    pub open spec fn applied(&self) -> Seq<Operation> {
        self.buffer@.take(self.index as int)
    }

    /// Records `operation`, dropping whatever had been undone.
    pub fn push(&mut self, operation: Operation)
        requires
            old(self).index <= old(self).buffer@.len() < usize::MAX,
        ensures
            final(self)@ == after_push(old(self)@, operation),
            final(self).index == final(self).buffer@.len(),
    {
        if self.index != self.buffer.len() {
            self.buffer.truncate(self.index);
        }
        self.buffer.push(operation);
        self.index += 1;
        assert(self.buffer@ =~= old(self).buffer@.take(old(self).index as int).push(operation));
    }
}

/// Applies `op` to a row-major cell array.
fn apply_operation(cells: &mut Vec<Cell>, size: Size, op: &Operation)
    requires
        old(cells)@.len() == size.area(),
        op.fits(size),
    ensures
        final(cells)@ == apply(size, old(cells)@, *op),
{
    match op {
        Operation::SetCell { point, cell } => {
            let i = size.cell_index(*point);
            cells.set(i, *cell);
        },
        Operation::Measure(points) => {
            set_measured_cells(cells, size, points);
        },
        Operation::Clear => {
            reset_cells(cells);
        },
        Operation::Fill { point, first_cell, fill_cell } => {
            flood_fill(cells, size, *point, *first_cell, *fill_cell);
        },
    }
}

/// Recording an operation keeps every earlier state of the history
/// reproducible, and the new state is the old one with the operation applied:
/// replaying the first `j` operations gives the state right after the `j`-th.
pub proof fn lemma_replay_after_push(size: Size, h: History, op: Operation)
    requires
        h.1 <= h.0.len(),
    ensures
        ({
            let n = after_push(h, op);
            &&& replay(size, n.0.take(n.1 as int)) == apply(size, replay(size, h.0.take(h.1 as int)), op)
            &&& forall|j: int| 0 <= j <= h.1 ==> #[trigger] replay(size, n.0.take(j)) == replay(size, h.0.take(j))
        }),
{
    let n = after_push(h, op);
    assert(n.0.take(n.1 as int) =~= n.0);
    assert(n.0.drop_last() =~= h.0.take(h.1 as int));
    assert forall|j: int| 0 <= j <= h.1 implies #[trigger] replay(size, n.0.take(j)) == replay(size, h.0.take(j)) by {
        assert(n.0.take(j) =~= h.0.take(j));
    }
}

/// A well-formed grid whose cells took `op` and whose history recorded it is well-formed.
pub(crate) proof fn lemma_push_wf(before: Grid, after: Grid, op: Operation)
    requires
        before.wf(),
        op.fits(before.size),
        after.same_puzzle(before),
        after.horizontal_clues_solutions@.len() == before.horizontal_clues_solutions@.len(),
        after.cells@ == apply(before.size, before.cells@, op),
        after.undo_redo_buffer@ == after_push(before.undo_redo_buffer@, op),
        after.undo_redo_buffer.index == after.undo_redo_buffer.buffer@.len(),
    ensures
        after.wf(),
{
    lemma_replay_after_push(before.size, before.undo_redo_buffer@, op);
    lemma_apply_len(before.size, before.cells@, op);
    let b = after.undo_redo_buffer.buffer@;
    let a = before.undo_redo_buffer.buffer@;
    assert forall|k: int| 0 <= k < b.len() implies (#[trigger] b[k]).fits(after.size) by {
        if k < b.len() - 1 {
            assert(b[k] == a[k]);
        }
    }
}

impl Grid {
    /// Rebuilds the cells by replaying the operations in effect on a blank grid.
    fn rebuild(&mut self)
        requires
            old(self).cells@.len() == old(self).size.area(),
            old(self).undo_redo_buffer.wf(old(self).size),
        ensures
            final(self).cells@ == replay(old(self).size, old(self).undo_redo_buffer.applied()),
            final(self).cells@.len() == old(self).size.area(),
            final(self).size == old(self).size,
            final(self).undo_redo_buffer == old(self).undo_redo_buffer,
            final(self).horizontal_clues_solutions == old(self).horizontal_clues_solutions,
            final(self).vertical_clues_solutions == old(self).vertical_clues_solutions,
            final(self).max_clues_size == old(self).max_clues_size,
            final(self).cells_to_be_filled == old(self).cells_to_be_filled,
    {
        reset_cells(&mut self.cells);
        let ghost ops = self.undo_redo_buffer.buffer@;
        assert(ops.take(0) =~= Seq::<Operation>::empty());
        let mut i: usize = 0;
        while i < self.undo_redo_buffer.index
            invariant
                i <= self.undo_redo_buffer.index <= ops.len(),
                ops == self.undo_redo_buffer.buffer@,
                self.undo_redo_buffer == old(self).undo_redo_buffer,
                self.size == old(self).size,
                self.undo_redo_buffer.wf(self.size),
                self.cells@.len() == self.size.area(),
                self.cells@ == replay(self.size, ops.take(i as int)),
                self.horizontal_clues_solutions == old(self).horizontal_clues_solutions,
                self.vertical_clues_solutions == old(self).vertical_clues_solutions,
                self.max_clues_size == old(self).max_clues_size,
                self.cells_to_be_filled == old(self).cells_to_be_filled,
            decreases self.undo_redo_buffer.index - i,
        {
            assert(self.undo_redo_buffer.buffer@[i as int].fits(self.size));
            let ghost before = self.cells@;
            apply_operation(&mut self.cells, self.size, &self.undo_redo_buffer.buffer[i]);
            proof {
                lemma_apply_len(self.size, before, ops[i as int]);
                assert(ops.take(i + 1).drop_last() =~= ops.take(i as int));
                assert(ops.take(i + 1).last() == ops[i as int]);
            }
            i += 1;
        }
        assert(ops.take(i as int) == self.undo_redo_buffer.applied());
    }

    /// Tries to undo the last operation and returns `true` if there was one.
    pub fn undo_last_cell(&mut self) -> (r: bool)
        requires
            old(self).wf(),
        ensures
            final(self).wf(),
            r == (old(self).undo_redo_buffer.index > 0),
            final(self).undo_redo_buffer@ == after_undo(old(self).undo_redo_buffer@),
            !r ==> *final(self) == *old(self),
            final(self).same_puzzle(*old(self)),
    {
        if self.undo_redo_buffer.index > 0 {
            self.undo_redo_buffer.index -= 1;
            self.rebuild();
            true
        } else {
            false
        }
    }

    /// Tries to redo the last undone operation and returns `true` if there was one.
    pub fn redo_last_cell(&mut self) -> (r: bool)
        requires
            old(self).wf(),
        ensures
            final(self).wf(),
            r == (old(self).undo_redo_buffer.index < old(self).undo_redo_buffer.buffer@.len()),
            final(self).undo_redo_buffer@ == after_redo(old(self).undo_redo_buffer@),
            !r ==> *final(self) == *old(self),
            final(self).same_puzzle(*old(self)),
    {
        if self.undo_redo_buffer.index != self.undo_redo_buffer.buffer.len() {
            self.undo_redo_buffer.index += 1;
            self.rebuild();
            true
        } else {
            false
        }
    }
}

} // verus!
