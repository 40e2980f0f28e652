use game_of_life::grid::{Cell, CellRect, MAX_COLUMN_COUNT, MAX_ROWS_COUNT};
use game_of_life::life::{Cells, GameState};

const COLS: usize = MAX_COLUMN_COUNT as usize;
const ROWS: usize = MAX_ROWS_COUNT as usize;

fn empty_fills() -> Vec<u8> {
    vec![0u8; COLS * ROWS]
}

fn set(fills: &mut Vec<u8>, row: usize, col: usize, value: u8) {
    fills[row * COLS + col] = value;
}

fn board_from(fills: &Vec<u8>) -> Cells {
    let mut cells = Cells::new();
    cells.fill_cells_array_from(fills);
    cells
}

fn game_from(fills: &Vec<u8>) -> GameState {
    GameState {
        cells: board_from(fills),
        fps: String::from("fps: 0"),
        is_game_on: true,
        is_game_over: false,
    }
}

fn fill_at(game: &GameState, row: usize, col: usize) -> u8 {
    game.cells.cells_array()[row][col].is_fill
}

fn live_cells(game: &GameState) -> Vec<(usize, usize)> {
    let mut live = Vec::new();
    for (r, row) in game.cells.cells_array().iter().enumerate() {
        for (c, cell) in row.iter().enumerate() {
            if cell.is_fill == 1 {
                live.push((r, c));
            }
        }
    }
    live
}

fn assert_shape(cells: &Cells) {
    let rows = cells.cells_array();
    assert_eq!(rows.len(), ROWS + 1);
    assert!(rows[ROWS].is_empty());
    for (r, row) in rows.iter().take(ROWS).enumerate() {
        assert_eq!(row.len(), COLS);
        for (c, cell) in row.iter().enumerate() {
            assert_eq!(cell.position_x as usize, c + 1);
            assert_eq!(cell.position_y as usize, r + 1);
        }
    }
}

#[test]
fn new_board_is_empty() {
    let cells = Cells::new();
    assert!(cells.cells_array().is_empty());
}

#[test]
fn fill_cells_array_fills_the_board_at_random() {
    let mut cells = Cells::new();
    assert!(cells.fill_cells_array());
    assert_shape(&cells);
    let mut ones = 0usize;
    let mut zeros = 0usize;
    for row in cells.cells_array().iter() {
        for cell in row.iter() {
            assert!(cell.is_fill < 2);
            if cell.is_fill == 1 {
                ones += 1;
            } else {
                zeros += 1;
            }
        }
    }
    assert_eq!(ones + zeros, COLS * ROWS);
    assert!(ones > 0);
    assert!(zeros > 0);
}

#[test]
fn fill_cells_array_leaves_a_filled_board_alone() {
    let mut fills = empty_fills();
    set(&mut fills, 3, 4, 1);
    let mut cells = board_from(&fills);
    let before = cells.cells_array().clone();
    assert!(cells.fill_cells_array());
    assert_eq!(cells.cells_array(), &before);
    cells.fill_cells_array_from(&empty_fills());
    assert_eq!(cells.cells_array(), &before);
}

#[test]
fn fill_cells_array_from_reads_in_reading_order() {
    let mut fills = empty_fills();
    set(&mut fills, 0, 0, 1);
    set(&mut fills, 0, 824, 2);
    set(&mut fills, 1, 0, 1);
    set(&mut fills, 419, 824, 1);
    let cells = board_from(&fills);
    assert_shape(&cells);
    let rows = cells.cells_array();
    assert_eq!(rows[0][0], Cell { is_fill: 1, position_x: 1, position_y: 1 });
    assert_eq!(rows[0][824], Cell { is_fill: 2, position_x: 825, position_y: 1 });
    assert_eq!(rows[1][0], Cell { is_fill: 1, position_x: 1, position_y: 2 });
    assert_eq!(rows[0][1], Cell { is_fill: 0, position_x: 2, position_y: 1 });
    assert_eq!(rows[419][824], Cell { is_fill: 1, position_x: 825, position_y: 420 });
}

#[test]
fn game_state_new_starts_running() {
    let game = GameState::new().expect("the operating system seeds the generator");
    assert_eq!(game.fps, "fps: 0");
    assert!(game.is_game_on);
    assert!(!game.is_game_over);
    assert_shape(&game.cells);
}

#[test]
fn toggles_flip_their_switch_and_back() {
    let mut game = game_from(&empty_fills());
    game.change_game_state();
    assert!(!game.is_game_on);
    assert!(!game.is_game_over);
    game.change_game_state();
    assert!(game.is_game_on);
    game.change_game_over_state();
    assert!(game.is_game_over);
    assert!(game.is_game_on);
    game.change_game_over_state();
    assert!(!game.is_game_over);
}

#[test]
fn empty_board_stays_empty() {
    let mut game = game_from(&empty_fills());
    game.cell_status_update();
    assert!(live_cells(&game).is_empty());
    assert_shape(&game.cells);
}

#[test]
fn blinker_oscillates() {
    let mut fills = empty_fills();
    set(&mut fills, 10, 10, 1);
    set(&mut fills, 10, 11, 1);
    set(&mut fills, 10, 12, 1);
    let mut game = game_from(&fills);
    game.cell_status_update();
    assert_eq!(live_cells(&game), vec![(9, 11), (10, 11), (11, 11)]);
    game.cell_status_update();
    assert_eq!(live_cells(&game), vec![(10, 10), (10, 11), (10, 12)]);
    assert_shape(&game.cells);
}

#[test]
fn block_is_still() {
    let mut fills = empty_fills();
    for (r, c) in [(200, 400), (200, 401), (201, 400), (201, 401)] {
        set(&mut fills, r, c, 1);
    }
    let mut game = game_from(&fills);
    game.cell_status_update();
    assert_eq!(live_cells(&game), vec![(200, 400), (200, 401), (201, 400), (201, 401)]);
}

#[test]
fn corner_cells_count_only_cells_on_the_board() {
    let mut fills = empty_fills();
    set(&mut fills, 0, 0, 1);
    set(&mut fills, 0, 1, 1);
    set(&mut fills, 1, 0, 1);
    let mut game = game_from(&fills);
    game.cell_status_update();
    assert_eq!(live_cells(&game), vec![(0, 0), (0, 1), (1, 0), (1, 1)]);
}

#[test]
fn no_wrap_around_at_the_far_corner() {
    let mut fills = empty_fills();
    set(&mut fills, 419, 824, 1);
    set(&mut fills, 419, 0, 1);
    set(&mut fills, 0, 824, 1);
    let mut game = game_from(&fills);
    game.cell_status_update();
    assert!(live_cells(&game).is_empty());
}

#[test]
fn rule_for_each_state() {
    // A live cell with one neighbour dies, one with four dies, a drawn dead
    // cell with three comes alive, a drawn dead cell with two stays drawn.
    let mut fills = empty_fills();
    set(&mut fills, 50, 50, 1);
    set(&mut fills, 50, 51, 1);
    let mut game = game_from(&fills);
    game.cell_status_update();
    assert_eq!(fill_at(&game, 50, 50), 0);
    assert_eq!(fill_at(&game, 50, 51), 0);

    let mut fills = empty_fills();
    set(&mut fills, 100, 100, 1);
    for (r, c) in [(99, 99), (99, 101), (101, 99), (101, 101)] {
        set(&mut fills, r, c, 1);
    }
    set(&mut fills, 100, 99, 2);
    let mut game = game_from(&fills);
    game.cell_status_update();
    assert_eq!(fill_at(&game, 100, 100), 0);
    assert_eq!(fill_at(&game, 100, 99), 1);
    assert_eq!(fill_at(&game, 99, 100), 1);

    let mut fills = empty_fills();
    set(&mut fills, 300, 300, 2);
    set(&mut fills, 299, 299, 1);
    set(&mut fills, 299, 301, 1);
    set(&mut fills, 301, 300, 1);
    set(&mut fills, 300, 310, 2);
    set(&mut fills, 299, 309, 1);
    set(&mut fills, 299, 311, 1);
    let mut game = game_from(&fills);
    game.cell_status_update();
    assert_eq!(fill_at(&game, 300, 300), 1);
    assert_eq!(fill_at(&game, 300, 310), 2);
    assert_eq!(fill_at(&game, 299, 310), 0);
    assert_eq!(fill_at(&game, 299, 309), 0);
}

#[test]
fn draw_cells_lists_live_squares_and_marks_dead_cells() {
    let mut fills = empty_fills();
    set(&mut fills, 0, 0, 1);
    set(&mut fills, 1, 2, 1);
    set(&mut fills, 419, 824, 1);
    set(&mut fills, 5, 5, 2);
    let mut game = game_from(&fills);
    let rects = game.draw_cells();
    assert_eq!(
        rects,
        vec![
            CellRect { left: 2, top: 2, right: 4, bottom: 4 },
            CellRect { left: 6, top: 4, right: 8, bottom: 6 },
            CellRect { left: 1650, top: 840, right: 1652, bottom: 842 },
        ]
    );
    assert_eq!(fill_at(&game, 0, 0), 1);
    assert_eq!(fill_at(&game, 0, 1), 2);
    assert_eq!(fill_at(&game, 5, 5), 2);
    assert_eq!(fill_at(&game, 419, 823), 2);
    assert_shape(&game.cells);

    let before = game.cells.cells_array().clone();
    let again = game.draw_cells();
    assert_eq!(again, rects);
    assert_eq!(game.cells.cells_array(), &before);
}

#[test]
fn drawing_does_not_change_the_game() {
    let mut fills = empty_fills();
    for (r, c) in [(20, 20), (20, 21), (20, 22), (21, 20), (22, 21)] {
        set(&mut fills, r, c, 1);
    }
    let mut plain = game_from(&fills);
    let mut drawn = game_from(&fills);
    for _ in 0..4 {
        drawn.draw_cells();
        drawn.cell_status_update();
        plain.cell_status_update();
        assert_eq!(live_cells(&drawn), live_cells(&plain));
    }
}
