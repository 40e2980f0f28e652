//! The board and the game state that the window runs.
use vstd::prelude::*;
use crate::grid::{
    Cell, CellRect, cell_rect, lemma_live_rects, live_cell_count, MAX_COLUMN_COUNT, MAX_ROWS_COUNT, alive_at, all_bits, cell_count, cols, count,
    drawn, filled_cell, filled_grid, full_grid, grid_shaped, lemma_cell_count,
    lemma_filled_grid_is_full, lemma_mark_drawn_keeps_shape, lemma_next_generation_keeps_shape, lemma_rule_of_life,
    live_neighbours, live_rects, live_rects_of_row, mark_drawn, next_cell, next_fill,
    next_generation, placed, rows,
};
use crate::random::CellDraws;

verus! {

/// The board: rows of cells.
#[derive(Debug)]
pub struct Cells {
    cells_array: Vec<Vec<Cell>>,
}

impl View for Cells {
    type V = Seq<Seq<Cell>>;

    closed spec fn view(&self) -> Seq<Seq<Cell>> {
        board(&self.cells_array)
    }
}

/// The rows of cells as mathematical sequences.
pub open spec fn board(grid_rows: &Vec<Vec<Cell>>) -> Seq<Seq<Cell>> {
    grid_rows@.map_values(|row: Vec<Cell>| row@)
}

/// 1 where the board holds a live cell, 0 elsewhere.
fn live_value(g: &Vec<Vec<Cell>>, r: usize, c: usize) -> (n: u8)
    requires
        full_grid(board(g)),
        r < rows(),
        c < cols(),
    ensures
        n == count(alive_at(board(g), r as int, c as int)),
{
    assert(board(g)[r as int] == g@[r as int]@);
    assert(board(g)[r as int].len() == cols());
    if g[r][c].is_fill == 1 {
        1
    } else {
        0
    }
}

/// Number of live cells around row `r`, column `c` of a filled board.
fn count_live_neighbours(g: &Vec<Vec<Cell>>, r: usize, c: usize) -> (n: u8)
    requires
        full_grid(board(g)),
        r < rows(),
        c < cols(),
    ensures
        n == live_neighbours(board(g), r as int, c as int),
        n <= 8,
{
    let last_col: usize = MAX_COLUMN_COUNT as usize;
    let last_row: usize = MAX_ROWS_COUNT as usize;
    let mut n: u8 = 0;
    if r > 0 && c > 0 {
        n = n + live_value(g, r - 1, c - 1);
    }
    if r > 0 {
        n = n + live_value(g, r - 1, c);
    }
    if r > 0 && c + 1 < last_col {
        n = n + live_value(g, r - 1, c + 1);
    }
    if c > 0 {
        n = n + live_value(g, r, c - 1);
    }
    if c + 1 < last_col {
        n = n + live_value(g, r, c + 1);
    }
    if r + 1 < last_row && c > 0 {
        n = n + live_value(g, r + 1, c - 1);
    }
    if r + 1 < last_row {
        n = n + live_value(g, r + 1, c);
    }
    if r + 1 < last_row && c + 1 < last_col {
        n = n + live_value(g, r + 1, c + 1);
    }
    n
}

/// The rule of the game for one cell with `n` live neighbours.
fn apply_rule(fill: u8, n: u8) -> (next: u8)
    ensures
        next == next_fill(fill, n as int),
{
    if (fill == 0 || fill == 2) && n == 3 {
        1
    } else if fill == 1 && (n < 2 || n > 3) {
        0
    } else {
        fill
    }
}

impl Cells {
    #[verifier::type_invariant]
    closed spec fn shaped(self) -> bool {
        grid_shaped(self@)
    }

    /// An empty board, not yet filled.
    pub fn new() -> (cells: Self)
        ensures
            cells@ == Seq::<Seq<Cell>>::empty(),
    {
        let cells = Cells { cells_array: Vec::new() };
        assert(cells@ =~= Seq::<Seq<Cell>>::empty());
        cells
    }

    /// The rows of the board, top first; a filled board ends with an empty row.
    pub fn cells_array(&self) -> (rows: &Vec<Vec<Cell>>)
        ensures
            board(rows) == self@,
    {
        &self.cells_array
    }

    /// Fills an empty board in reading order, one value of `fills` per cell;
    /// a board that is already filled stays as it is.
    pub fn fill_cells_array_from(&mut self, fills: &Vec<u8>)
        requires
            fills@.len() == cell_count(),
        ensures
            old(self)@.len() == 0 ==> final(self)@ == filled_grid(fills@),
            old(self)@.len() != 0 ==> final(self)@ == old(self)@,
    {
        if self.cells_array.len() == 0 {
            let row_len: usize = MAX_COLUMN_COUNT as usize;
            let rows_n: usize = MAX_ROWS_COUNT as usize;
            let ghost target = filled_grid(fills@);
            proof {
                lemma_cell_count();
            }
            let mut filled: Vec<Vec<Cell>> = Vec::new();
            let mut y: usize = 0;
            while y < rows_n
                invariant
                    row_len == 825,
                    rows_n == 420,
                    cell_count() == 346500,
                    fills@.len() == cell_count(),
                    target == filled_grid(fills@),
                    y <= rows_n,
                    filled@.len() == y,
                    forall|i: int| 0 <= i < y ==> #[trigger] filled@[i]@ == target[i],
                decreases rows_n - y,
            {
                let mut row: Vec<Cell> = Vec::new();
                let mut x: usize = 0;
                while x < row_len
                    invariant
                        row_len == 825,
                        rows_n == 420,
                        cell_count() == 346500,
                        fills@.len() == cell_count(),
                        y < rows_n,
                        x <= row_len,
                        row@.len() == x,
                        forall|j: int| 0 <= j < x ==> #[trigger] row@[j] == filled_cell(fills@, y as int, j),
                    decreases row_len - x,
                {
                    assert(y * 825 + x < cell_count()) by (nonlinear_arith)
                        requires
                            y < 420,
                            x < 825,
                            cell_count() == 346500,
                    ;
                    let index = y * row_len + x;
                    row.push(
                        Cell {
                            is_fill: fills[index],
                            position_x: (x + 1) as u16,
                            position_y: (y + 1) as u16,
                        },
                    );
                    x = x + 1;
                }
                assert(row@ =~= target[y as int]);
                filled.push(row);
                y = y + 1;
            }
            filled.push(Vec::new());
            proof {
                assert(board(&filled) =~= target);
                lemma_filled_grid_is_full(fills@);
            }
            self.cells_array = filled;
        }
    }

    /// Fills an empty board with one fresh draw of `draws` per cell, in
    /// reading order; a board that is already filled stays as it is and
    /// nothing is drawn.
    pub fn fill_cells_array_with(&mut self, draws: &mut CellDraws)
        ensures
            old(self)@.len() == 0 ==> {
                let start = old(draws).drawn().len() as int;
                let fresh = final(draws).drawn().skip(start);
                &&& final(draws).drawn().len() == start + cell_count()
                &&& final(draws).drawn().take(start) == old(draws).drawn()
                &&& all_bits(fresh)
                &&& final(self)@ == filled_grid(fresh)
            },
            old(self)@.len() != 0 ==> final(self)@ == old(self)@ && final(draws).drawn() == old(draws).drawn(),
    {
        if self.cells_array.len() == 0 {
            proof {
                lemma_cell_count();
            }
            let ghost start = draws.drawn();
            let total: usize = (MAX_ROWS_COUNT as usize) * (MAX_COLUMN_COUNT as usize);
            let mut fills: Vec<u8> = Vec::new();
            let mut i: usize = 0;
            while i < total
                invariant
                    total == cell_count(),
                    i <= total,
                    fills@.len() == i,
                    all_bits(fills@),
                    draws.drawn() == start + fills@,
                decreases total - i,
            {
                let is_fill = draws.draw();
                fills.push(is_fill);
                i = i + 1;
            }
            proof {
                assert(draws.drawn().skip(start.len() as int) =~= fills@);
                assert(draws.drawn().take(start.len() as int) =~= start);
            }
            self.fill_cells_array_from(&fills);
        }
    }

    /// Fills an empty board with cells that are each alive or dead at
    /// random, one fresh draw per cell, and returns `true`; when the
    /// operating system cannot seed the random number generator, the board
    /// stays empty and the result is `false`. A board that is already filled
    /// stays as it is, and the result is `true`.
    pub fn fill_cells_array(&mut self) -> (seeded: bool)
        ensures
            old(self)@.len() == 0 && seeded ==> exists|fills: Seq<u8>|
                fills.len() == cell_count() && all_bits(fills) && final(self)@ == filled_grid(fills),
            !seeded ==> old(self)@.len() == 0 && final(self)@ == old(self)@,
            old(self)@.len() != 0 ==> seeded && final(self)@ == old(self)@,
    {
        if self.cells_array.len() == 0 {
            let mut draws = match CellDraws::seeded() {
                Some(draws) => draws,
                None => {
                    return false;
                },
            };
            self.fill_cells_array_with(&mut draws);
            proof {
                assert(draws.drawn().skip(0) =~= draws.drawn());
            }
        }
        true
    }
}

/// What the window runs: the board, the frame rate text, and two switches.
pub struct GameState {
    pub cells: Cells,
    pub fps: String,
    pub is_game_on: bool,
    pub is_game_over: bool,
}

impl GameState {
    /// A running game on a board filled at random, with the frame rate text
    /// "fps: 0"; `None` when the operating system cannot seed the random
    /// number generator.
    pub fn new() -> (game: Option<Self>)
        ensures
            game matches Some(game) ==> {
                &&& game.fps@ == "fps: 0"@
                &&& game.is_game_on
                &&& !game.is_game_over
                &&& exists|fills: Seq<u8>|
                    fills.len() == cell_count() && all_bits(fills) && game.cells@ == filled_grid(fills)
            },
    {
        let mut new_game_state = GameState {
            cells: Cells::new(),
            fps: String::from_str("fps: 0"),
            is_game_on: true,
            is_game_over: false,
        };
        if new_game_state.cells.fill_cells_array() {
            Some(new_game_state)
        } else {
            None
        }
    }

    /// Switches the game between running and paused.
    pub fn change_game_state(&mut self)
        ensures
            final(self).is_game_on == !old(self).is_game_on,
            final(self).is_game_over == old(self).is_game_over,
            final(self).fps == old(self).fps,
            final(self).cells@ == old(self).cells@,
    {
        self.is_game_on = !self.is_game_on;
    }

    /// Switches the game between over and not over.
    pub fn change_game_over_state(&mut self)
        ensures
            final(self).is_game_over == !old(self).is_game_over,
            final(self).is_game_on == old(self).is_game_on,
            final(self).fps == old(self).fps,
            final(self).cells@ == old(self).cells@,
    {
        self.is_game_over = !self.is_game_over;
    }

    /// Moves the board on by one generation: every cell follows the rule of
    /// the game, counted on the board as it stood before the step.
    pub fn cell_status_update(&mut self)
        ensures
            final(self).cells@ == next_generation(old(self).cells@),
            forall|r: int, c: int|
                0 <= r < old(self).cells@.len() && 0 <= c < old(self).cells@[r].len() ==> {
                    let before = old(self).cells@[r][c].is_fill;
                    let n = live_neighbours(old(self).cells@, r, c);
                    (#[trigger] final(self).cells@[r][c].is_fill == 1) <==> (((before == 0 || before == 2) && n == 3)
                        || (before == 1 && (n == 2 || n == 3)))
                },
            final(self).fps == old(self).fps,
            final(self).is_game_on == old(self).is_game_on,
            final(self).is_game_over == old(self).is_game_over,
    {
        proof {
            use_type_invariant(&self.cells);
        }
        let ghost g = self.cells@;
        let current = &self.cells.cells_array;
        let n = current.len();
        let mut next_rows: Vec<Vec<Cell>> = Vec::new();
        let mut r: usize = 0;
        while r < n
            invariant
                n == current@.len(),
                g == board(current),
                grid_shaped(g),
                r <= n,
                next_rows@.len() == r,
                forall|i: int| 0 <= i < r ==> #[trigger] next_rows@[i]@ == next_generation(g)[i],
            decreases n - r,
        {
            let row = &current[r];
            let m = row.len();
            let mut next_row: Vec<Cell> = Vec::new();
            let mut c: usize = 0;
            assert(g[r as int] == row@);
            while c < m
                invariant
                    n == current@.len(),
                    g == board(current),
                    grid_shaped(g),
                    r < n,
                    m == row@.len(),
                    g[r as int] == row@,
                    c <= m,
                    next_row@.len() == c,
                    forall|j: int| 0 <= j < c ==> #[trigger] next_row@[j] == next_cell(g, r as int, j),
                decreases m - c,
            {
                let cell = row[c];
                assert(r < rows() && c < cols());
                let live = count_live_neighbours(current, r, c);
                next_row.push(
                    Cell {
                        is_fill: apply_rule(cell.is_fill, live),
                        position_x: cell.position_x,
                        position_y: cell.position_y,
                    },
                );
                c = c + 1;
            }
            assert(next_row@ =~= next_generation(g)[r as int]);
            next_rows.push(next_row);
            r = r + 1;
        }
        proof {
            lemma_next_generation_keeps_shape(g);
            assert forall|r: int, c: int| 0 <= r < g.len() && 0 <= c < g[r].len() implies {
                let before = g[r][c].is_fill;
                let n = live_neighbours(g, r, c);
                (#[trigger] next_generation(g)[r][c].is_fill == 1) <==> (((before == 0 || before == 2) && n == 3)
                    || (before == 1 && (n == 2 || n == 3)))
            } by {
                lemma_rule_of_life(g, r, c);
            }
            assert(board(&next_rows) =~= next_generation(g));
        }
        self.cells = Cells { cells_array: next_rows };
    }

    /// Lists the squares to fill on screen, one for each live cell in reading
    /// order, and marks every dead cell as drawn.
    pub fn draw_cells(&mut self) -> (rects: Vec<CellRect>)
        ensures
            rects@ == live_rects(old(self).cells@),
            rects@.len() == live_cell_count(old(self).cells@),
            forall|r: int, c: int|
                0 <= r < old(self).cells@.len() && 0 <= c < old(self).cells@[r].len()
                    && #[trigger] old(self).cells@[r][c].is_fill == 1 ==> rects@.contains(
                    cell_rect(old(self).cells@[r][c]),
                ),
            final(self).cells@ == mark_drawn(old(self).cells@),
            final(self).fps == old(self).fps,
            final(self).is_game_on == old(self).is_game_on,
            final(self).is_game_over == old(self).is_game_over,
    {
        proof {
            use_type_invariant(&self.cells);
        }
        let ghost g = self.cells@;
        let current = &self.cells.cells_array;
        let n = current.len();
        let mut rects: Vec<CellRect> = Vec::new();
        let mut marked_rows: Vec<Vec<Cell>> = Vec::new();
        let mut r: usize = 0;
        while r < n
            invariant
                n == current@.len(),
                g == board(current),
                grid_shaped(g),
                r <= n,
                marked_rows@.len() == r,
                forall|i: int| 0 <= i < r ==> #[trigger] marked_rows@[i]@ == mark_drawn(g)[i],
                rects@ == live_rects(g.take(r as int)),
            decreases n - r,
        {
            let row = &current[r];
            let m = row.len();
            let mut marked_row: Vec<Cell> = Vec::new();
            let ghost done = rects@;
            let mut c: usize = 0;
            assert(g[r as int] == row@);
            while c < m
                invariant
                    n == current@.len(),
                    g == board(current),
                    grid_shaped(g),
                    r < n,
                    m == row@.len(),
                    g[r as int] == row@,
                    c <= m,
                    marked_row@.len() == c,
                    forall|j: int| 0 <= j < c ==> #[trigger] marked_row@[j] == drawn(row@[j]),
                    rects@ == done + live_rects_of_row(row@.take(c as int)),
                decreases m - c,
            {
                let cell = row[c];
                assert(r < rows() && c < cols() && placed(cell, r as int, c as int));
                assert(row@.take(c + 1).drop_last() =~= row@.take(c as int));
                if cell.is_fill == 1 {
                    let left: i32 = 2 * (cell.position_x as i32);
                    let top: i32 = 2 * (cell.position_y as i32);
                    rects.push(CellRect { left, top, right: left + 2, bottom: top + 2 });
                    assert(rects@ =~= done + live_rects_of_row(row@.take(c + 1)));
                    marked_row.push(cell);
                } else if cell.is_fill == 0 {
                    marked_row.push(
                        Cell { is_fill: 2, position_x: cell.position_x, position_y: cell.position_y },
                    );
                } else {
                    marked_row.push(cell);
                }
                c = c + 1;
            }
            assert(row@.take(m as int) =~= row@);
            assert(g.take(r + 1).drop_last() =~= g.take(r as int));
            assert(marked_row@ =~= mark_drawn(g)[r as int]);
            marked_rows.push(marked_row);
            r = r + 1;
        }
        proof {
            assert(g.take(n as int) =~= g);
            lemma_live_rects(g);
            lemma_mark_drawn_keeps_shape(g);
            assert(board(&marked_rows) =~= mark_drawn(g));
        }
        self.cells = Cells { cells_array: marked_rows };
        rects
    }
}

} // verus!
