use toot_otto::dummy_grid::DummyGrid;
use toot_otto::grid::Grid;

#[test]
fn new_grid_is_empty() {
    let grid = Grid::new(6, 7);
    assert_eq!(grid.num_rows, 6);
    assert_eq!(grid.num_cols, 7);
    for r in 0..6 {
        for c in 0..7 {
            assert_eq!(grid.get(r, c), 0);
        }
    }
}

#[test]
fn chips_stack_from_the_bottom() {
    let mut grid = Grid::new(6, 7);
    for k in 0..6 {
        assert_eq!(grid.insert_chip(3, 1), Ok(5 - k));
        assert_eq!(grid.get(5 - k, 3), 1);
    }
    assert_eq!(grid.insert_chip(3, 1), Err(()));
    assert_eq!(grid.insert_chip(2, -1), Ok(5));
}

#[test]
fn symbol_chips_stack_from_the_bottom() {
    let mut grid = DummyGrid::new(4, 5);
    assert_eq!(grid.insert_chip(0, 1), Ok(3));
    assert_eq!(grid.insert_chip(0, -1), Ok(2));
    assert_eq!(grid.insert_chip(0, -1), Ok(1));
    assert_eq!(grid.insert_chip(0, 1), Ok(0));
    assert_eq!(grid.insert_chip(0, 1), Err(()));
    assert_eq!(grid.get(3, 0), 1);
    assert_eq!(grid.get(2, 0), -1);
}

#[test]
fn column_outside_the_board_is_refused() {
    let mut grid = Grid::new(6, 7);
    let before = grid.items;
    assert_eq!(grid.insert_chip(7, 1), Err(()));
    assert_eq!(grid.insert_chip(usize::MAX, 1), Err(()));
    assert_eq!(grid.items, before);
    let mut symbols = DummyGrid::new(6, 7);
    assert_eq!(symbols.insert_chip(7, 1), Err(()));
}

#[test]
fn storage_runs_column_by_column_bottom_first() {
    let mut grid = Grid::new(6, 7);
    grid.set(0, 0, 5);
    assert_eq!(grid.items[5], 5);
    grid.set(5, 0, 7);
    assert_eq!(grid.items[0], 7);
    grid.set(2, 3, 9);
    assert_eq!(grid.items[3 * 6 + 3], 9);
    assert_eq!(grid.get(2, 3), 9);
    assert_eq!(grid.get(0, 0), 5);
    let mut symbols = DummyGrid::new(6, 7);
    symbols.set(5, 6, -1);
    assert_eq!(symbols.items[36], -1);
    assert_eq!(symbols.get(5, 6), -1);
}

#[test]
fn insert_lands_below_a_floating_chip() {
    let mut grid = Grid::new(6, 7);
    grid.set(2, 1, 1);
    assert_eq!(grid.insert_chip(1, -1), Ok(5));
    let mut full_once = Grid::new(1, 1);
    assert_eq!(full_once.insert_chip(0, 1), Ok(0));
    assert_eq!(full_once.insert_chip(0, 1), Err(()));
}

#[test]
fn boards_render_row_by_row() {
    let mut grid = Grid::new(2, 3);
    grid.insert_chip(0, 1).unwrap();
    grid.insert_chip(0, -1).unwrap();
    grid.insert_chip(2, -1).unwrap();
    assert_eq!(grid.render(), Ok("Y _ _ \nR _ Y \n".to_string()));
    let mut symbols = DummyGrid::new(2, 3);
    symbols.insert_chip(1, 1).unwrap();
    symbols.insert_chip(1, -1).unwrap();
    assert_eq!(symbols.render(), Ok("_ O _ \n_ T _ \n".to_string()));
    assert_eq!(DummyGrid::new(0, 0).render(), Ok(String::new()));
}

#[test]
fn a_cell_that_holds_no_chip_value_cannot_be_rendered() {
    let mut grid = Grid::new(2, 2);
    grid.set(1, 1, 2);
    assert_eq!(grid.render(), Err(()));
    let mut symbols = DummyGrid::new(2, 2);
    symbols.set(0, 0, -2);
    assert_eq!(symbols.render(), Err(()));
}
