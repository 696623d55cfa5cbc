use cells::grid::{Cell, Direction, Grid};
use rand::rngs::StdRng;
use rand::SeedableRng;

#[test]
fn check_available_cells() {
    let grid = Grid::new(20, 20);
    let sample = (1, 1);
    assert_eq!(grid.cell_taken(&sample), false)
}

#[test]
fn take_cell() {
    let mut grid = Grid::new(20, 20);
    let sample = (1, 1);
    let grid_size = grid.available_cells.len();
    assert_eq!(grid.cell_taken(&sample), false);
    assert_eq!(grid.take_cell(&sample).unwrap(), (1, 1));
    assert_eq!(grid.available_cells.len(), grid_size - 1);
    assert_eq!(grid.cell_taken(&sample), true);
}

#[test]
fn find_adjacent_cells() {
    let grid = Grid::new(10, 10);
    let start = (9, 9);
    let next = grid.adjacent_cell_coordinates(&start, &Direction::DOWN);
    assert_eq!(next, Some((9, 8)));
    let out_of_bounds = grid.adjacent_cell_coordinates(&start, &Direction::UP);
    assert_eq!(out_of_bounds, None);

    let left = grid.adjacent_cell_coordinates(&start, &Direction::LEFT);
    assert_eq!(left, Some((8, 9)));

    let right_out_of_bounds = grid.adjacent_cell_coordinates(&start, &Direction::RIGHT);
    assert_eq!(right_out_of_bounds, None);
}

#[test]
fn oob_adjacent_cells_from_origin() {
    let grid = Grid::new(10, 10);
    let start = (0, 0);
    let down = grid.adjacent_cell_coordinates(&start, &Direction::DOWN);
    assert_eq!(down, None);

    let left = grid.adjacent_cell_coordinates(&start, &Direction::LEFT);
    assert_eq!(left, None);
}

#[test]
fn test_take_random_cells() {
    let mut grid = Grid::new(10, 10);
    let mut count_taken = 0;

    while let Some(cell) = grid.peek_random() {
        if let Some(taken) = grid.take_cell(&cell) {
            assert_eq!(taken, cell);
            count_taken = count_taken + 1;
        } else {
            break;
        }
    }
    assert_eq!(count_taken, 10 * 10);
}

#[test]
fn new_grid_holds_every_cell_once() {
    let grid = Grid::new(3, 4);
    assert_eq!(grid.w, 3);
    assert_eq!(grid.h, 4);
    assert_eq!(grid.available_cells.len(), 12);
    for x in 0..3 {
        for y in 0..4 {
            let cell: Cell = (x, y);
            assert_eq!(grid.available_cells.iter().filter(|c| **c == cell).count(), 1);
            assert!(!grid.cell_taken(&cell));
        }
    }
}

#[test]
fn empty_grids_are_exhausted() {
    let no_columns = Grid::new(0, 7);
    assert!(!no_columns.has_cells());
    assert_eq!(no_columns.peek_random(), None);
    let no_rows = Grid::new(7, 0);
    assert!(!no_rows.has_cells());
    assert_eq!(no_rows.peek_random(), None);
    assert!(Grid::new(1, 1).has_cells());
}

#[test]
fn cells_outside_the_grid_count_as_taken() {
    let mut grid = Grid::new(4, 4);
    assert!(grid.cell_taken(&(4, 0)));
    assert!(grid.cell_taken(&(0, 4)));
    assert!(grid.cell_taken(&(-1, 2)));
    assert_eq!(grid.take_cell(&(4, 0)), None);
    assert_eq!(grid.available_cells.len(), 16);
}

#[test]
fn second_claim_of_a_cell_fails() {
    let mut grid = Grid::new(5, 5);
    assert_eq!(grid.take_cell(&(2, 3)), Some((2, 3)));
    assert!(grid.cell_taken(&(2, 3)));
    assert_eq!(grid.available_cells.len(), 24);
    assert_eq!(grid.take_cell(&(2, 3)), None);
    assert_eq!(grid.available_cells.len(), 24);
    assert!(grid.cell_taken(&(2, 3)));
}

#[test]
fn claiming_the_last_listed_cell_keeps_the_others() {
    let mut grid = Grid::new(2, 2);
    let last = *grid.available_cells.last().unwrap();
    assert_eq!(grid.take_cell(&last), Some(last));
    assert_eq!(grid.available_cells.len(), 3);
    for x in 0..2 {
        for y in 0..2 {
            assert_eq!(grid.cell_taken(&(x, y)), (x, y) == last);
        }
    }
}

#[test]
fn corners_have_no_neighbors_outside() {
    let grid = Grid::new(6, 9);
    assert_eq!(grid.adjacent_cell_coordinates(&(0, 0), &Direction::LEFT), None);
    assert_eq!(grid.adjacent_cell_coordinates(&(0, 0), &Direction::DOWN), None);
    assert_eq!(grid.adjacent_cell_coordinates(&(5, 8), &Direction::RIGHT), None);
    assert_eq!(grid.adjacent_cell_coordinates(&(5, 8), &Direction::UP), None);
    assert_eq!(grid.adjacent_cell_coordinates(&(0, 0), &Direction::RIGHT), Some((1, 0)));
    assert_eq!(grid.adjacent_cell_coordinates(&(0, 0), &Direction::UP), Some((0, 1)));
}

#[test]
fn inner_cells_have_four_neighbors() {
    let grid = Grid::new(6, 9);
    for x in 1..5 {
        for y in 1..8 {
            assert_eq!(grid.adjacent_cell_coordinates(&(x, y), &Direction::UP), Some((x, y + 1)));
            assert_eq!(grid.adjacent_cell_coordinates(&(x, y), &Direction::DOWN), Some((x, y - 1)));
            assert_eq!(grid.adjacent_cell_coordinates(&(x, y), &Direction::LEFT), Some((x - 1, y)));
            assert_eq!(grid.adjacent_cell_coordinates(&(x, y), &Direction::RIGHT), Some((x + 1, y)));
        }
    }
}

#[test]
fn neighbor_ignores_claims_and_extreme_cells() {
    let mut grid = Grid::new(3, 3);
    grid.take_cell(&(1, 1));
    assert_eq!(grid.adjacent_cell_coordinates(&(0, 1), &Direction::RIGHT), Some((1, 1)));
    assert_eq!(grid.adjacent_cell_coordinates(&(i32::MAX, 0), &Direction::RIGHT), None);
    assert_eq!(grid.adjacent_cell_coordinates(&(0, i32::MIN), &Direction::DOWN), None);
}

#[test]
fn peek_random_returns_an_unclaimed_cell_and_keeps_it() {
    let mut grid = Grid::new(3, 3);
    for x in 0..3 {
        for y in 0..3 {
            if (x, y) != (2, 1) {
                grid.take_cell(&(x, y));
            }
        }
    }
    for _ in 0..20 {
        assert_eq!(grid.peek_random(), Some((2, 1)));
    }
    assert_eq!(grid.available_cells.len(), 1);
}

#[test]
fn take_random_claims_every_cell_once() {
    let mut grid = Grid::new(4, 3);
    let mut rng = StdRng::seed_from_u64(21);
    let mut taken: Vec<Cell> = Vec::new();
    while let Some(cell) = grid.take_random(&mut rng) {
        assert!(grid.cell_taken(&cell));
        assert!(!taken.contains(&cell));
        taken.push(cell);
    }
    assert_eq!(taken.len(), 12);
    assert!(!grid.has_cells());
    assert_eq!(grid.take_random(&mut rng), None);
}

#[test]
fn seeded_peeks_repeat() {
    let grid = Grid::new(30, 30);
    let mut rng = StdRng::seed_from_u64(22);
    let mut again = StdRng::seed_from_u64(22);
    let mut seen: Vec<Cell> = Vec::new();
    for _ in 0..40 {
        let cell = grid.peek_random_with(&mut rng);
        assert_eq!(cell, grid.peek_random_with(&mut again));
        assert!(!grid.cell_taken(&cell.unwrap()));
        seen.push(cell.unwrap());
    }
    seen.sort();
    seen.dedup();
    assert!(seen.len() > 1);
}
