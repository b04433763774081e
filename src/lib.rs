//! The logic of a nonogram puzzle: the grid of cells, the run-length clues of
//! its rows and columns, the solved-state evaluation, and an undo/redo history
//! that rebuilds the grid by replaying recorded operations.

pub mod clues;
pub mod geometry;
pub mod grid;
pub mod undo_redo_buffer;
