use game_of_life::Cell;
use game_of_life::Universe;

/// Build a cell vector from rows of '#' (alive) and '.' (dead).
fn grid(rows: &[&str]) -> Vec<Cell> {
    let mut cells = Vec::new();
    for row in rows {
        for ch in row.chars() {
            cells.push(if ch == '#' { Cell::Alive } else { Cell::Dead });
        }
    }
    cells
}

/// Read the whole grid back through the public per-cell accessor.
fn snapshot(u: &Universe) -> Vec<Cell> {
    let mut cells = Vec::new();
    for row in 0..u.height() {
        for col in 0..u.width() {
            cells.push(u.get_cell(row, col));
        }
    }
    cells
}

#[test]
fn neighbor_counts_of_uniform_grids() {
    let alive = Universe::from_cells(5, 5, grid(&["#####"; 5])).unwrap();
    let dead = Universe::from_cells(5, 5, grid(&["....."; 5])).unwrap();
    for row in 0..5u32 {
        for col in 0..5u32 {
            assert_eq!(alive.count_neighbors(row, col), 8);
            assert_eq!(dead.count_neighbors(row, col), 0);
        }
    }
}

#[test]
fn neighbor_counts_wrap_around_the_edges() {
    let u = Universe::from_cells(
        3,
        3,
        grid(&[
            ".#.", //
            ".#.", //
            ".#.",
        ]),
    )
    .unwrap();
    // On a 3x3 torus every cell sees all 8 other cells exactly once, so the
    // count is 3 minus the cell's own value.
    for row in 0..3u32 {
        assert_eq!(u.count_neighbors(row, 0), 3);
        assert_eq!(u.count_neighbors(row, 1), 2);
        assert_eq!(u.count_neighbors(row, 2), 3);
    }
}

#[test]
fn neighbor_count_on_one_by_one_grid_counts_the_cell_itself() {
    // Degenerate wrap-around: all 8 offsets reach the only cell.
    let u = Universe::from_cells(1, 1, grid(&["#"])).unwrap();
    assert_eq!(u.count_neighbors(0, 0), 8);
    let mut u = u;
    u.tick();
    assert_eq!(u.get_cell(0, 0), Cell::Dead);
}

#[test]
fn all_dead_grid_stays_all_dead() {
    let mut u = Universe::from_cells(5, 5, grid(&["....."; 5])).unwrap();
    u.tick();
    assert!(snapshot(&u).iter().all(|c| *c == Cell::Dead));
}

#[test]
fn isolated_live_cell_dies() {
    let mut u = Universe::from_cells(
        5,
        5,
        grid(&[
            ".....", //
            ".....", //
            "..#..", //
            ".....", //
            ".....",
        ]),
    )
    .unwrap();
    assert_eq!(u.count_neighbors(2, 2), 0);
    u.tick();
    assert!(snapshot(&u).iter().all(|c| *c == Cell::Dead));
}

#[test]
fn block_is_stable() {
    let before = grid(&[
        "....", //
        ".##.", //
        ".##.", //
        "....",
    ]);
    let mut u = Universe::from_cells(4, 4, before.clone()).unwrap();
    u.tick();
    assert_eq!(snapshot(&u), before);

    let before = grid(&[
        "......", //
        ".##...", //
        ".##...", //
        "......", //
        "......", //
        "......",
    ]);
    let mut u = Universe::from_cells(6, 6, before.clone()).unwrap();
    u.tick();
    assert_eq!(snapshot(&u), before);
}

#[test]
fn blinker_oscillates_with_period_two() {
    let horizontal = grid(&[
        ".....", //
        ".....", //
        ".###.", //
        ".....", //
        ".....",
    ]);
    let vertical = grid(&[
        ".....", //
        "..#..", //
        "..#..", //
        "..#..", //
        ".....",
    ]);
    let mut u = Universe::from_cells(5, 5, horizontal.clone()).unwrap();
    u.tick();
    assert_eq!(snapshot(&u), vertical);
    u.tick();
    assert_eq!(snapshot(&u), horizontal);
}

#[test]
fn tick_is_deterministic_in_the_grid() {
    let cells = grid(&[
        "#..#", //
        ".##.", //
        "#.#.", //
        "..##",
    ]);
    let mut a = Universe::from_cells(4, 4, cells.clone()).unwrap();
    let mut b = Universe::from_cells(4, 4, cells).unwrap();
    a.tick();
    b.tick();
    assert_eq!(snapshot(&a), snapshot(&b));
}

#[test]
fn three_by_three_live_column_fills_the_torus() {
    // Middle column alive on a 3x3 torus: every live cell sees 2 live
    // neighbors and survives, every dead cell sees exactly 3 and is born,
    // so one step turns the whole grid alive.
    let mut u = Universe::from_cells(
        3,
        3,
        grid(&[
            ".#.", //
            ".#.", //
            ".#.",
        ]),
    )
    .unwrap();
    u.tick();
    assert!(snapshot(&u).iter().all(|c| *c == Cell::Alive));
}
