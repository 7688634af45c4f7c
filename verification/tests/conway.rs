use conway::sim::{ConwayGol, GolError};

/// A game that starts from the rows given as text, `#` for a living cell.
fn game(rows: &[&str]) -> ConwayGol {
    let board = rows.iter().map(|r| r.chars().map(|c| c == '#').collect()).collect();
    ConwayGol::from_board(board).unwrap()
}

/// The current board as text, `#` for a living cell and `.` for a dead one.
fn show(cw: &ConwayGol) -> Vec<String> {
    cw.board()
        .iter()
        .map(|r| r.iter().map(|&c| if c { '#' } else { '.' }).collect())
        .collect()
}

#[test]
fn board_init() -> Result<(), GolError> {
    let cw = ConwayGol::build_rand(4)?;
    assert_eq!(cw.board().len(), cw.buffer().len());
    assert_eq!(cw.board()[0].len(), cw.buffer()[0].len());
    assert_eq!(cw.board().len(), cw.board()[0].len());
    Ok(())
}

/// Verifies correctness of GoL on a 9x9 grid for a few ticks
#[test]
fn conway_9x9() {
    let mut cw = ConwayGol::from_board(vec![
        vec![false, true, false],
        vec![false, true, true],
        vec![false, false, true],
    ])
    .unwrap();

    cw.tick();
    assert_eq!(
        *cw.board(),
        vec![
            vec![false, true, true],
            vec![false, true, true],
            vec![false, true, true],
        ]
    );

    cw.tick();
    assert_eq!(
        *cw.board(),
        vec![
            vec![false, true, true],
            vec![true, false, false],
            vec![false, true, true],
        ]
    );

    cw.tick();
    assert_eq!(
        *cw.board(),
        vec![
            vec![false, true, false],
            vec![true, false, false],
            vec![false, true, false],
        ]
    );
}

#[test]
fn build_rand_refuses_sides_below_four() {
    for dim in 0..4 {
        assert_eq!(ConwayGol::build_rand(dim).unwrap_err(), GolError::InvalidDimension);
    }
}

#[test]
fn build_rand_makes_square_boards() {
    for dim in [4usize, 5, 9, 32] {
        let cw = ConwayGol::build_rand(dim).unwrap();
        assert_eq!(cw.board().len(), dim);
        assert_eq!(cw.buffer().len(), dim);
        for r in 0..dim {
            assert_eq!(cw.board()[r].len(), dim);
            assert_eq!(cw.buffer()[r], vec![false; dim]);
        }
    }
}

#[test]
fn build_rand_tosses_a_coin_for_each_cell() {
    let cw = ConwayGol::build_rand(64).unwrap();
    let alive = cw.board().iter().flatten().filter(|&&c| c).count();
    // 4096 fair tosses: all alike, or fewer than a quarter of one kind, does
    // not happen
    assert!(alive > 1024, "{alive} of 4096 cells are alive");
    assert!(alive < 3072, "{alive} of 4096 cells are alive");
}

#[test]
fn invalid_dimension_message() {
    assert_eq!(GolError::InvalidDimension.message(), "Board dimension must be greater than 3");
}

#[test]
fn from_board_refuses_ragged_rows() {
    assert!(ConwayGol::from_board(vec![vec![true, false], vec![true]]).is_none());
    assert!(ConwayGol::from_board(vec![vec![], vec![false]]).is_none());
    assert!(ConwayGol::from_board(vec![vec![true], vec![false], vec![true, true]]).is_none());
}

#[test]
fn from_board_keeps_the_cells() {
    let cells = vec![vec![true, false, true], vec![false, false, true]];
    let cw = ConwayGol::from_board(cells.clone()).unwrap();
    assert_eq!(*cw.board(), cells);
    assert_eq!(*cw.buffer(), vec![vec![false; 3]; 2]);
}

#[test]
fn empty_boards() {
    let mut cw = ConwayGol::from_board(Vec::new()).unwrap();
    cw.tick();
    assert!(cw.board().is_empty());
    assert!(cw.buffer().is_empty());

    let mut cw = ConwayGol::from_board(vec![vec![], vec![]]).unwrap();
    cw.tick();
    assert_eq!(*cw.board(), vec![Vec::<bool>::new(), Vec::new()]);
}

#[test]
fn count_neighbors_exact() {
    let cw = game(&[
        "##..", //
        "#.#.", //
        "...#", //
        "#..#",
    ]);
    let expected = [
        [2, 3, 2, 1], //
        [2, 4, 2, 2], //
        [2, 3, 3, 2], //
        [0, 1, 2, 1],
    ];
    for row in 0..4 {
        for col in 0..4 {
            assert_eq!(cw.count_neighbors(row, col), expected[row][col], "at ({row}, {col})");
        }
    }
}

#[test]
fn count_neighbors_full_board() {
    let cw = game(&["###", "###", "###"]);
    assert_eq!(cw.count_neighbors(1, 1), 8);
    assert_eq!(cw.count_neighbors(0, 0), 3);
    assert_eq!(cw.count_neighbors(0, 1), 5);
    assert_eq!(cw.count_neighbors(2, 2), 3);
    assert_eq!(cw.count_neighbors(1, 2), 5);
}

#[test]
fn count_neighbors_single_cell() {
    let cw = game(&["#"]);
    assert_eq!(cw.count_neighbors(0, 0), 0);
}

#[test]
fn dead_cell_with_three_neighbours_is_born() {
    let mut cw = game(&["##.", "#..", "..."]);
    cw.tick();
    assert_eq!(show(&cw), ["##.", "##.", "..."]);
}

#[test]
fn dead_cell_with_two_or_four_neighbours_stays_dead() {
    let mut cw = game(&["#.#", "...", "..."]);
    cw.tick();
    assert!(!cw.board()[1][1], "two neighbours");

    let mut cw = game(&["#.#", "...", "#.#"]);
    cw.tick();
    assert!(!cw.board()[1][1], "four neighbours");
}

#[test]
fn live_cell_dies_of_loneliness() {
    let mut cw = game(&["...", ".#.", "..."]);
    cw.tick();
    assert_eq!(show(&cw), ["...", "...", "..."]);

    let mut cw = game(&["#..", ".#.", "..."]);
    cw.tick();
    assert_eq!(show(&cw), ["...", "...", "..."]);
}

#[test]
fn live_cell_lives_on_with_two_or_three() {
    let mut cw = game(&["#..", ".#.", "..#"]);
    cw.tick();
    assert_eq!(show(&cw), ["...", ".#.", "..."]);

    let mut cw = game(&["#.#", ".#.", "..#"]);
    cw.tick();
    assert!(cw.board()[1][1]);
}

#[test]
fn live_cell_dies_of_crowding() {
    for rows in [["#.#", ".#.", "#.#"], ["###", "##.", "..."], ["###", "###", "###"]] {
        let mut cw = game(&rows);
        cw.tick();
        assert!(!cw.board()[1][1], "{rows:?}");
    }
}

#[test]
fn block_is_still() {
    let start = ["....", ".##.", ".##.", "...."];
    let mut cw = game(&start);
    for _ in 0..5 {
        cw.tick();
        assert_eq!(show(&cw), start);
    }
}

#[test]
fn blinker_has_period_two() {
    let upright = [".....", "..#..", "..#..", "..#..", "....."];
    let flat = [".....", ".....", ".###.", ".....", "....."];
    let mut cw = game(&upright);
    for _ in 0..4 {
        cw.tick();
        assert_eq!(show(&cw), flat);
        cw.tick();
        assert_eq!(show(&cw), upright);
    }
}

#[test]
fn glider_moves_down_and_right() {
    let mut cw = game(&[
        ".#....", //
        "..#...", //
        "###...", //
        "......", //
        "......", //
        "......",
    ]);
    for _ in 0..4 {
        cw.tick();
    }
    assert_eq!(
        show(&cw),
        [
            "......", //
            "..#...", //
            "...#..", //
            ".###..", //
            "......", //
            "......",
        ]
    );
}

#[test]
fn nothing_wraps_round_the_edges() {
    // three cells in the right column, none in the left
    let mut cw = game(&["...#", "...#", "...#", "...."]);
    cw.tick();
    assert_eq!(show(&cw), ["....", "..##", "....", "...."]);
}

#[test]
fn rectangular_board() {
    let mut cw = game(&["###..", ".....", "....."]);
    cw.tick();
    assert_eq!(show(&cw), [".#...", ".#...", "....."]);
    assert_eq!(cw.buffer().len(), 3);
    assert_eq!(cw.buffer()[0].len(), 5);
}

#[test]
fn dead_board_stays_dead() {
    let start = vec![vec![false; 6]; 6];
    let mut cw = ConwayGol::from_board(start.clone()).unwrap();
    for _ in 0..10 {
        cw.tick();
        assert_eq!(*cw.board(), start);
    }
}

#[test]
fn reading_twice_gives_the_same_board() {
    let mut cw = ConwayGol::build_rand(8).unwrap();
    let first = cw.board().clone();
    let second = cw.board().clone();
    assert_eq!(first, second);
    assert!(std::ptr::eq(cw.board(), cw.board()));
    cw.tick();
    assert_eq!(cw.board().clone(), cw.board().clone());
}

#[test]
fn tick_leaves_the_old_board_in_the_buffer() {
    let mut cw = ConwayGol::build_rand(7).unwrap();
    for _ in 0..3 {
        let before = cw.board().clone();
        cw.tick();
        assert_eq!(*cw.buffer(), before);
        assert_eq!(cw.board().len(), 7);
        assert!(cw.board().iter().all(|r| r.len() == 7));
    }
}

#[test]
fn tick_follows_the_rule_cell_by_cell() {
    let mut cw = ConwayGol::build_rand(12).unwrap();
    for _ in 0..3 {
        let before = cw.board().clone();
        let mut expected = before.clone();
        for row in 0..12 {
            for col in 0..12 {
                let n = cw.count_neighbors(row, col);
                expected[row][col] = if before[row][col] { n == 2 || n == 3 } else { n == 3 };
            }
        }
        cw.tick();
        assert_eq!(*cw.board(), expected);
    }
}
