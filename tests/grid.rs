use nonogram::geometry::{Point, Size};
use nonogram::grid::builder::{Builder, Cursor};
use nonogram::clues::derive_clues;
use nonogram::grid::{Cell, Grid};
use nonogram::undo_redo_buffer::Operation;

/// Builds a grid from lines where `1` is a filled cell and ` ` an empty one.
fn from_lines(lines: &[&str]) -> Grid {
    Grid::new(size_of(lines), pattern_of(lines))
}

fn size_of(lines: &[&str]) -> Size {
    let width = lines.iter().map(|line| line.len()).max().unwrap();
    Size::new(width as u16, lines.len() as u16)
}

fn pattern_of(lines: &[&str]) -> Vec<Cell> {
    let mut cells = Vec::new();
    for line in lines {
        for char in line.chars() {
            cells.push(match char {
                '1' => Cell::Filled,
                ' ' => Cell::Empty,
                _ => panic!("the strings must only contain '1' or ' '"),
            });
        }
    }
    cells
}

fn line_of(text: &str) -> Vec<bool> {
    text.chars().map(|c| c == '1').collect()
}

fn point(x: u16, y: u16) -> Point {
    Point { x, y }
}

#[test]
fn test_squared_grid() {
    let grid = from_lines(&[
        "1 1 111 1 ",
        " 1 11 111 ",
        "1111 11  1",
        "1 11 1  11",
        "1  111  11",
    ]);

    assert_eq!(
        grid.horizontal_clues_solutions,
        [
            vec![1, 1, 3, 1],
            vec![1, 2, 3],
            vec![4, 2, 1],
            vec![1, 2, 1, 2],
            vec![1, 3, 2],
        ]
    );

    assert_eq!(
        grid.vertical_clues_solutions,
        [
            vec![1, 3],
            vec![2],
            vec![1, 2],
            vec![4],
            vec![2, 1],
            vec![1, 3],
            vec![3],
            vec![1],
            vec![2, 2],
            vec![3]
        ]
    );
}

#[test]
fn test_non_squared_grid() {
    let grid = from_lines(&[" 111", " 1 1", "11 1", "1 1 ", "1  1", "  1 "]);

    assert_eq!(
        grid.horizontal_clues_solutions,
        [vec![3], vec![1, 1], vec![2, 1], vec![1, 1], vec![1, 1], vec![1]]
    );

    assert_eq!(
        grid.vertical_clues_solutions,
        [vec![3], vec![3], vec![1, 1, 1], vec![3, 1]]
    );
}

#[test]
fn blank_line_has_no_clues() {
    assert_eq!(derive_clues(&line_of("     ")), Vec::<u16>::new());
    assert_eq!(derive_clues(&Vec::new()), Vec::<u16>::new());
}

#[test]
fn clues_are_run_lengths() {
    assert_eq!(derive_clues(&line_of("1 1 111 1 ")), vec![1, 1, 3, 1]);
    assert_eq!(derive_clues(&line_of("1111111")), vec![7]);
    assert_eq!(derive_clues(&line_of("  11  1")), vec![2, 1]);
}

#[test]
fn solutions_are_the_clues_of_the_picture() {
    let lines = ["11 1 ", " 111 ", "1   1"];
    let grid = from_lines(&lines);
    for (y, line) in lines.iter().enumerate() {
        assert_eq!(grid.horizontal_clues_solutions[y], derive_clues(&line_of(line)));
    }
    for x in 0..5 {
        let column: String = lines.iter().map(|line| line.chars().nth(x).unwrap()).collect();
        assert_eq!(grid.vertical_clues_solutions[x], derive_clues(&line_of(&column)));
    }
    assert_eq!(grid.cells_to_be_filled, 8);
    assert_eq!(grid.max_clues_size, Size::new(4, 2));
    assert!(grid.cells.iter().all(|cell| *cell == Cell::Empty));
}

#[test]
fn construction_keeps_only_filled_cells_in_the_solution() {
    let mut cells = vec![Cell::Empty; 4];
    cells[0] = Cell::Crossed;
    cells[1] = Cell::Filled;
    cells[3] = Cell::Measured(Some(2));
    let grid = Grid::new(Size::new(2, 2), cells);
    assert_eq!(grid.horizontal_clues_solutions, [vec![1], vec![]]);
    assert_eq!(grid.vertical_clues_solutions, [vec![], vec![1]]);
    assert_eq!(grid.cells, vec![Cell::Empty; 4]);
    assert_eq!(grid.cells_to_be_filled, 1);
}

#[test]
fn live_clues_follow_the_cells() {
    let mut grid = from_lines(&["111", "   ", "1 1"]);
    assert!(grid.get_horizontal_clues(0).is_empty());
    grid.set_cell(point(0, 0), Cell::Filled);
    grid.set_cell(point(1, 0), Cell::Filled);
    grid.set_cell(point(2, 0), Cell::Maybed);
    assert_eq!(grid.get_horizontal_clues(0), vec![2]);
    assert_eq!(grid.get_vertical_clues(0), vec![1]);
    assert_eq!(grid.get_cell(point(2, 0)), Cell::Maybed);
}

#[test]
fn undo_at_start_and_redo_at_end_do_nothing() {
    let mut grid = from_lines(&["1 ", " 1"]);
    assert!(!grid.undo_last_cell());
    assert_eq!(grid.undo_redo_buffer.index, 0);
    assert!(grid.undo_redo_buffer.buffer.is_empty());
    assert_eq!(grid.cells, vec![Cell::Empty; 4]);

    grid.set_cell(point(0, 0), Cell::Filled);
    assert!(!grid.redo_last_cell());
    assert_eq!(grid.undo_redo_buffer.index, 1);
    assert_eq!(grid.undo_redo_buffer.buffer.len(), 1);
    assert_eq!(grid.get_cell(point(0, 0)), Cell::Filled);
}

#[test]
fn new_operation_discards_undone_ones() {
    let mut grid = from_lines(&["1111", "    "]);
    for x in 0..4 {
        grid.set_cell(point(x, 0), Cell::Filled);
    }
    assert!(grid.undo_last_cell());
    assert!(grid.undo_last_cell());
    grid.set_cell(point(0, 1), Cell::Crossed);
    assert_eq!(grid.undo_redo_buffer.buffer.len(), 4 - 2 + 1);
    assert_eq!(grid.undo_redo_buffer.index, 3);
    assert!(!grid.redo_last_cell());
    assert_eq!(grid.get_cell(point(2, 0)), Cell::Empty);
    assert_eq!(grid.get_cell(point(0, 1)), Cell::Crossed);
}

#[test]
fn fill_with_the_same_cell_does_nothing() {
    let mut grid = from_lines(&["11", "11"]);
    assert!(!grid.fill(point(0, 0), Cell::Empty));
    assert_eq!(grid.cells, vec![Cell::Empty; 4]);
    assert!(grid.undo_redo_buffer.buffer.is_empty());
}

#[test]
fn fill_covers_the_connected_region_only() {
    let mut grid = from_lines(&["   ", "   ", "   "]);
    // A wall of crosses down the middle column, open at the bottom.
    grid.set_cell(point(1, 0), Cell::Crossed);
    grid.set_cell(point(1, 1), Cell::Crossed);
    assert!(grid.fill(point(0, 0), Cell::Filled));
    assert_eq!(
        grid.cells,
        vec![
            Cell::Filled, Cell::Crossed, Cell::Filled,
            Cell::Filled, Cell::Crossed, Cell::Filled,
            Cell::Filled, Cell::Filled, Cell::Filled,
        ]
    );
    assert!(matches!(
        grid.undo_redo_buffer.buffer[2],
        Operation::Fill { first_cell: Cell::Empty, fill_cell: Cell::Filled, .. }
    ));
}

#[test]
fn fill_does_not_cross_diagonals() {
    let mut grid = from_lines(&["  ", "  "]);
    grid.set_cell(point(1, 0), Cell::Crossed);
    grid.set_cell(point(0, 1), Cell::Crossed);
    assert!(grid.fill(point(0, 0), Cell::Maybed));
    assert_eq!(
        grid.cells,
        vec![Cell::Maybed, Cell::Crossed, Cell::Crossed, Cell::Empty]
    );
}

#[test]
fn measure_marks_the_trace_in_order() {
    let mut grid = from_lines(&["   ", "   "]);
    grid.measure(vec![point(0, 0), point(1, 0), point(2, 0), point(0, 0)]);
    assert_eq!(grid.get_cell(point(0, 0)), Cell::Measured(Some(3)));
    assert_eq!(grid.get_cell(point(1, 0)), Cell::Measured(Some(1)));
    assert_eq!(grid.get_cell(point(2, 0)), Cell::Measured(Some(2)));
    assert_eq!(grid.get_cell(point(0, 1)), Cell::Empty);
    assert_eq!(grid.undo_redo_buffer.buffer.len(), 1);
}

#[test]
fn clear_resets_and_is_recorded() {
    let mut grid = from_lines(&["1 ", " 1"]);
    grid.set_cell(point(0, 0), Cell::Filled);
    grid.clear();
    assert_eq!(grid.cells, vec![Cell::Empty; 4]);
    assert_eq!(grid.undo_redo_buffer.buffer.len(), 2);
    assert!(grid.undo_last_cell());
    assert_eq!(grid.get_cell(point(0, 0)), Cell::Filled);
}

#[test]
fn undo_and_redo_replay_the_history() {
    let mut grid = from_lines(&["    ", "    ", "    "]);
    let mut states = vec![grid.cells.clone()];
    grid.set_cell(point(1, 1), Cell::Crossed);
    states.push(grid.cells.clone());
    grid.fill(point(0, 0), Cell::Maybed);
    states.push(grid.cells.clone());
    grid.measure(vec![point(3, 2), point(2, 2)]);
    states.push(grid.cells.clone());
    grid.set_cell(point(0, 0), Cell::Filled);
    states.push(grid.cells.clone());
    grid.clear();
    states.push(grid.cells.clone());
    grid.fill(point(1, 1), Cell::Filled);
    states.push(grid.cells.clone());

    for i in (0..states.len() - 1).rev() {
        assert!(grid.undo_last_cell());
        assert_eq!(grid.cells, states[i]);
    }
    assert!(!grid.undo_last_cell());
    for state in states.iter().skip(1) {
        assert!(grid.redo_last_cell());
        assert_eq!(&grid.cells, state);
    }
    assert!(!grid.redo_last_cell());
}

#[test]
fn the_picture_itself_is_solved() {
    let lines = ["1 11", " 1 1", "11  "];
    let mut grid = from_lines(&lines);
    assert!(!grid.is_solved());
    let pattern = pattern_of(&lines);
    for (i, cell) in pattern.iter().enumerate() {
        if *cell == Cell::Filled {
            grid.set_cell(point(i as u16 % 4, i as u16 / 4), Cell::Filled);
        } else {
            grid.set_cell(point(i as u16 % 4, i as u16 / 4), Cell::Crossed);
        }
    }
    let solved = grid.solved_clues();
    assert!(solved.horizontal_clues.iter().all(|s| *s));
    assert!(solved.vertical_clues.iter().all(|s| *s));
    assert_eq!(solved.solved_cell_count, grid.cells_to_be_filled);
    assert_eq!(solved.solved_cell_count, 7);
    assert!(grid.is_solved());
}

#[test]
fn solved_cells_are_counted_once() {
    let mut grid = from_lines(&["11", "  "]);
    grid.set_cell(point(0, 0), Cell::Filled);
    let solved = grid.solved_clues();
    assert_eq!(solved.horizontal_clues, vec![false, true]);
    assert_eq!(solved.vertical_clues, vec![true, false]);
    assert_eq!(solved.solved_cell_count, 1);
    assert!(!grid.is_solved());
    grid.set_cell(point(1, 0), Cell::Filled);
    let solved = grid.solved_clues();
    assert_eq!(solved.solved_cell_count, 2);
    assert!(grid.is_solved());
}

#[test]
fn blank_five_by_five_is_solved() {
    let size = Size::new(5, 5);
    let grid = Grid::new(size, vec![Cell::Empty; size.product() as usize]);
    for y in 0..5 {
        assert!(grid.horizontal_clues_solutions[y as usize].is_empty());
        assert!(grid.get_horizontal_clues(y).is_empty());
    }
    for x in 0..5 {
        assert!(grid.vertical_clues_solutions[x as usize].is_empty());
        assert!(grid.get_vertical_clues(x).is_empty());
    }
    assert_eq!(grid.cells_to_be_filled, 0);
    let solved = grid.solved_clues();
    assert_eq!(solved.horizontal_clues, vec![true; 5]);
    assert_eq!(solved.vertical_clues, vec![true; 5]);
    assert_eq!(solved.solved_cell_count, 0);
    assert!(grid.is_solved());
}

#[test]
fn mutable_cell_changes_in_place() {
    let mut grid = from_lines(&["  ", "  "]);
    *grid.get_mut_cell(point(1, 1)) = Cell::Crossed;
    assert_eq!(grid.cells[3], Cell::Crossed);
    assert!(grid.undo_redo_buffer.buffer.is_empty());
}

#[test]
fn cell_conversions() {
    assert_eq!(Cell::from(true), Cell::Filled);
    assert_eq!(Cell::from(false), Cell::Empty);
    assert_eq!(Cell::default(), Cell::Empty);
}

#[test]
fn cell_colors() {
    assert_eq!(Cell::Empty.color_byte(point(0, 0), false), 239);
    assert_eq!(Cell::Empty.color_byte(point(5, 0), false), 237);
    assert_eq!(Cell::Empty.color_byte(point(5, 5), true), 237);
    assert_eq!(Cell::Filled.color_byte(point(0, 0), true), 253);
    assert_eq!(Cell::Measured(Some(1)).color_byte(point(0, 0), false), 46);
    assert_eq!(Cell::Crossed.get_dark_color(), 88);
    assert_eq!(Cell::Maybed.get_darkest_color(), 37);
}

#[test]
fn builder_centres_and_contains() {
    let grid = from_lines(&["1 1 ", " 11 ", "1111"]);
    // Clues take 4 columns and 2 rows.
    assert_eq!(grid.max_clues_size, Size::new(4, 2));
    let cursor = Cursor::centered(Size::new(80, 24), &grid);
    assert_eq!(cursor.point, point(40 - 4 + 2, 12 - 1 + 1));
    let builder = Builder::new(Size::new(80, 24), grid);
    assert_eq!(builder.cursor, cursor);
    assert!(builder.contains(point(38, 12)));
    assert!(builder.contains(point(45, 14)));
    assert!(!builder.contains(point(46, 14)));
    assert!(!builder.contains(point(38, 15)));
    assert!(!builder.contains(point(37, 12)));
}
