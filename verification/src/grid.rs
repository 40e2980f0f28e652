//! The mathematical model of the board: cells, their layout, the rule that
//! takes one generation to the next, and what is drawn of a board.
use vstd::prelude::*;

verus! {

/// Number of cells in one row of the board.
pub const MAX_COLUMN_COUNT: u32 = 825;

/// Number of rows of the board.
pub const MAX_ROWS_COUNT: u32 = 420;

/// One square of the board.
///
/// `is_fill` is 1 for a live cell, 0 for a dead cell, and 2 for a dead cell
/// that has already been drawn as dead. Positions count from 1.
#[derive(Clone, Copy, Debug, PartialEq, Eq)]
pub struct Cell {
    pub is_fill: u8,
    pub position_x: u16,
    pub position_y: u16,
}

/// The screen rectangle, in device independent pixels, that a live cell fills.
#[derive(Clone, Copy, Debug, PartialEq, Eq)]
pub struct CellRect {
    pub left: i32,
    pub top: i32,
    pub right: i32,
    pub bottom: i32,
}

pub open spec fn cols() -> int {
    MAX_COLUMN_COUNT as int
}

pub open spec fn rows() -> int {
    MAX_ROWS_COUNT as int
}

pub proof fn lemma_cell_count()
    ensures
        cell_count() == 346500,
{
    assert(rows() * cols() == 346500) by (nonlinear_arith)
        requires
            rows() == 420,
            cols() == 825,
    ;
}

/// The cell at row `r`, column `c` (both from 0) knows where it stands.
pub open spec fn placed(cell: Cell, r: int, c: int) -> bool {
    &&& cell.position_x == c + 1
    &&& cell.position_y == r + 1
}

/// A filled board: `rows()` full rows in which every cell knows its place,
/// followed by one empty row, which filling appends after the last full row.
pub open spec fn full_grid(g: Seq<Seq<Cell>>) -> bool {
    &&& g.len() == rows() + 1
    &&& g[rows()].len() == 0
    &&& forall|r: int| 0 <= r < rows() ==> #[trigger] g[r].len() == cols()
    &&& forall|r: int, c: int|
        0 <= r < rows() && 0 <= c < cols() ==> placed(#[trigger] g[r][c], r, c)
}

/// The shapes a board can have: not yet filled, or filled.
pub open spec fn grid_shaped(g: Seq<Seq<Cell>>) -> bool {
    g.len() == 0 || full_grid(g)
}

/// Whether the board holds a live cell at row `r`, column `c`; a place off
/// the board holds none.
pub open spec fn alive_at(g: Seq<Seq<Cell>>, r: int, c: int) -> bool {
    &&& 0 <= r < rows()
    &&& 0 <= c < cols()
    &&& r < g.len()
    &&& c < g[r].len()
    &&& g[r][c].is_fill == 1
}

pub open spec fn count(b: bool) -> int {
    if b { 1 } else { 0 }
}

/// Number of live cells among the eight that touch row `r`, column `c`.
pub open spec fn live_neighbours(g: Seq<Seq<Cell>>, r: int, c: int) -> int {
    count(alive_at(g, r - 1, c - 1)) + count(alive_at(g, r - 1, c)) + count(alive_at(g, r - 1, c + 1))
        + count(alive_at(g, r, c - 1)) + count(alive_at(g, r, c + 1))
        + count(alive_at(g, r + 1, c - 1)) + count(alive_at(g, r + 1, c)) + count(alive_at(g, r + 1, c + 1))
}

/// The rule of the game for one cell with `n` live neighbours: a dead cell
/// (drawn or not) with exactly three comes alive, a live cell with fewer than
/// two or more than three dies, and every other cell keeps its state.
pub open spec fn next_fill(fill: u8, n: int) -> u8 {
    if (fill == 0 || fill == 2) && n == 3 {
        1
    } else if fill == 1 && (n < 2 || n > 3) {
        0
    } else {
        fill
    }
}

/// The cell at row `r`, column `c` in the next generation.
pub open spec fn next_cell(g: Seq<Seq<Cell>>, r: int, c: int) -> Cell {
    Cell {
        is_fill: next_fill(g[r][c].is_fill, live_neighbours(g, r, c)),
        position_x: g[r][c].position_x,
        position_y: g[r][c].position_y,
    }
}

/// The next generation of the whole board: every cell at once, each from
/// the current generation.
pub open spec fn next_generation(g: Seq<Seq<Cell>>) -> Seq<Seq<Cell>> {
    Seq::new(g.len(), |r: int| Seq::new(g[r].len(), |c: int| next_cell(g, r, c)))
}


/// The rule keeps the shape of the board and the place of every cell.
pub proof fn lemma_next_generation_keeps_shape(g: Seq<Seq<Cell>>)
    requires
        grid_shaped(g),
    ensures
        grid_shaped(next_generation(g)),
{
    let h = next_generation(g);
    if g.len() != 0 {
        assert forall|r: int, c: int| 0 <= r < rows() && 0 <= c < cols() implies placed(#[trigger] h[r][c], r, c) by {
            assert(placed(g[r][c], r, c));
        }
    }
}


/// Number of cells on a filled board.
pub open spec fn cell_count() -> int {
    rows() * cols()
}

/// The cell at row `r`, column `c` of a board filled in reading order from
/// `fills`: row by row from the top, each row from the left.
pub open spec fn filled_cell(fills: Seq<u8>, r: int, c: int) -> Cell {
    Cell { is_fill: fills[r * cols() + c], position_x: (c + 1) as u16, position_y: (r + 1) as u16 }
}

/// The board filled in reading order from `fills`, one value per cell,
/// followed by one empty row.
pub open spec fn filled_grid(fills: Seq<u8>) -> Seq<Seq<Cell>> {
    Seq::new(
        (rows() + 1) as nat,
        |r: int|
            if r < rows() {
                Seq::new(cols() as nat, |c: int| filled_cell(fills, r, c))
            } else {
                Seq::<Cell>::empty()
            },
    )
}

/// Every value is 0 or 1.
pub open spec fn all_bits(fills: Seq<u8>) -> bool {
    forall|i: int| 0 <= i < fills.len() ==> #[trigger] fills[i] < 2
}

/// A dead cell that has been drawn is marked 2; other cells are unchanged.
pub open spec fn drawn(cell: Cell) -> Cell {
    if cell.is_fill == 0 {
        Cell { is_fill: 2, position_x: cell.position_x, position_y: cell.position_y }
    } else {
        cell
    }
}

/// The board once every cell has been drawn.
pub open spec fn mark_drawn(g: Seq<Seq<Cell>>) -> Seq<Seq<Cell>> {
    Seq::new(g.len(), |r: int| Seq::new(g[r].len(), |c: int| drawn(g[r][c])))
}

/// The square of side 2 that a cell covers on screen, at twice its position.
pub open spec fn cell_rect(cell: Cell) -> CellRect {
    CellRect {
        left: (2 * cell.position_x) as i32,
        top: (2 * cell.position_y) as i32,
        right: (2 * cell.position_x + 2) as i32,
        bottom: (2 * cell.position_y + 2) as i32,
    }
}

/// The squares of the live cells of one row, from the left.
pub open spec fn live_rects_of_row(row: Seq<Cell>) -> Seq<CellRect>
    decreases row.len(),
{
    if row.len() == 0 {
        Seq::empty()
    } else {
        let rest = live_rects_of_row(row.drop_last());
        if row.last().is_fill == 1 {
            rest.push(cell_rect(row.last()))
        } else {
            rest
        }
    }
}

/// The squares of the live cells of a board, in reading order.
pub open spec fn live_rects(g: Seq<Seq<Cell>>) -> Seq<CellRect>
    decreases g.len(),
{
    if g.len() == 0 {
        Seq::empty()
    } else {
        live_rects(g.drop_last()) + live_rects_of_row(g.last())
    }
}

/// The live cells of one row, from the left.
pub open spec fn live_cells_of_row(row: Seq<Cell>) -> Seq<Cell> {
    row.filter(|cell: Cell| cell.is_fill == 1)
}

/// The number of live cells on a board.
pub open spec fn live_cell_count(g: Seq<Seq<Cell>>) -> nat
    decreases g.len(),
{
    if g.len() == 0 {
        0
    } else {
        live_cell_count(g.drop_last()) + live_cells_of_row(g.last()).len()
    }
}

/// Drawing keeps the shape of the board and the place of every cell.
pub proof fn lemma_mark_drawn_keeps_shape(g: Seq<Seq<Cell>>)
    requires
        grid_shaped(g),
    ensures
        grid_shaped(mark_drawn(g)),
{
    let h = mark_drawn(g);
    if g.len() != 0 {
        assert forall|r: int, c: int| 0 <= r < rows() && 0 <= c < cols() implies placed(#[trigger] h[r][c], r, c) by {
            assert(placed(g[r][c], r, c));
        }
    }
}

/// Whether the board holds no live cell.
pub open spec fn extinct(g: Seq<Seq<Cell>>) -> bool {
    forall|r: int, c: int| 0 <= r < g.len() && 0 <= c < g[r].len() ==> #[trigger] g[r][c].is_fill != 1
}

/// A board filled from any values has the shape of a filled board.
pub proof fn lemma_filled_grid_is_full(fills: Seq<u8>)
    ensures
        full_grid(filled_grid(fills)),
{
    let g = filled_grid(fills);
    assert forall|r: int, c: int| 0 <= r < rows() && 0 <= c < cols() implies placed(#[trigger] g[r][c], r, c) by {
        assert(g[r][c] == filled_cell(fills, r, c));
    }
}

/// A board without live cells stays without live cells: no dead cell has
/// three live neighbours, so nothing is born.
pub proof fn lemma_extinct_stays_extinct(g: Seq<Seq<Cell>>)
    requires
        extinct(g),
    ensures
        extinct(next_generation(g)),
{
    let h = next_generation(g);
    assert forall|r: int, c: int| 0 <= r < h.len() && 0 <= c < h[r].len() implies #[trigger] h[r][c].is_fill != 1 by {
        assert(g[r][c].is_fill != 1);
    }
}

/// Marking drawn cells never changes which cells are alive.
pub proof fn lemma_drawn_keeps_alive(g: Seq<Seq<Cell>>, r: int, c: int)
    ensures
        alive_at(mark_drawn(g), r, c) == alive_at(g, r, c),
{
}

/// Drawing a board does not change the game: the next generation of the
/// drawn board has the same live cells, in the same places, as the next
/// generation of the board itself, and the two differ at most in which dead
/// cells are marked as drawn.
pub proof fn lemma_drawing_keeps_the_game(g: Seq<Seq<Cell>>)
    ensures
        next_generation(mark_drawn(g)).len() == next_generation(g).len(),
        forall|r: int| 0 <= r < g.len() ==> #[trigger] next_generation(mark_drawn(g))[r].len() == next_generation(g)[r].len(),
        forall|r: int, c: int| 0 <= r < g.len() && 0 <= c < g[r].len() ==>
            (#[trigger] next_generation(mark_drawn(g))[r][c].is_fill == 1) == (next_generation(g)[r][c].is_fill == 1),
        mark_drawn(next_generation(mark_drawn(g))) == mark_drawn(next_generation(g)),
{
    let d = mark_drawn(g);
    let a = next_generation(d);
    let b = next_generation(g);
    assert forall|r: int, c: int| 0 <= r < g.len() && 0 <= c < g[r].len() implies
        (#[trigger] a[r][c].is_fill == 1) == (b[r][c].is_fill == 1) && drawn(a[r][c]) == drawn(b[r][c]) by {
        lemma_drawn_keeps_alive(g, r - 1, c - 1);
        lemma_drawn_keeps_alive(g, r - 1, c);
        lemma_drawn_keeps_alive(g, r - 1, c + 1);
        lemma_drawn_keeps_alive(g, r, c - 1);
        lemma_drawn_keeps_alive(g, r, c + 1);
        lemma_drawn_keeps_alive(g, r + 1, c - 1);
        lemma_drawn_keeps_alive(g, r + 1, c);
        lemma_drawn_keeps_alive(g, r + 1, c + 1);
        assert(live_neighbours(d, r, c) == live_neighbours(g, r, c));
    }
    assert(mark_drawn(a) =~~= mark_drawn(b));
}

/// Drawing twice is drawing once: the second pass lists the same squares and
/// marks nothing new.
pub proof fn lemma_drawing_twice(g: Seq<Seq<Cell>>)
    ensures
        mark_drawn(mark_drawn(g)) == mark_drawn(g),
        live_rects(mark_drawn(g)) == live_rects(g),
    decreases g.len(),
{
    assert(mark_drawn(mark_drawn(g)) =~~= mark_drawn(g));
    if g.len() > 0 {
        lemma_drawing_twice(g.drop_last());
        assert(mark_drawn(g).drop_last() =~~= mark_drawn(g.drop_last()));
        lemma_drawn_row_rects(g.last());
        assert(mark_drawn(g).last() =~= g.last().map_values(|cell: Cell| drawn(cell)));
    }
}

/// Marking one row as drawn keeps the squares of its live cells.
pub proof fn lemma_drawn_row_rects(row: Seq<Cell>)
    ensures
        live_rects_of_row(row.map_values(|cell: Cell| drawn(cell))) == live_rects_of_row(row),
    decreases row.len(),
{
    if row.len() > 0 {
        lemma_drawn_row_rects(row.drop_last());
        assert(row.map_values(|cell: Cell| drawn(cell)).drop_last() =~= row.drop_last().map_values(
            |cell: Cell| drawn(cell),
        ));
    }
}


/// A place counts as a live neighbour only when it is on the board.
pub proof fn lemma_only_board_cells_live(g: Seq<Seq<Cell>>, r: int, c: int)
    ensures
        alive_at(g, r, c) ==> 0 <= r < rows() && 0 <= c < cols(),
        r < 0 || c < 0 || r >= rows() || c >= cols() ==> count(alive_at(g, r, c)) == 0,
        0 <= live_neighbours(g, r, c) <= 8,
{
}

/// Conway's rule, cell by cell, with `n` the number of live cells on the
/// board that touch the cell: a dead cell, drawn or not, comes alive exactly
/// when `n` is 3 and otherwise keeps its state; a live cell stays alive
/// exactly when `n` is 2 or 3 and otherwise dies; any other value is kept.
/// Every cell keeps its place.
pub proof fn lemma_rule_of_life(g: Seq<Seq<Cell>>, r: int, c: int)
    requires
        0 <= r < g.len(),
        0 <= c < g[r].len(),
    ensures
        ({
            let n = live_neighbours(g, r, c);
            let before = g[r][c].is_fill;
            let after = next_generation(g)[r][c].is_fill;
            &&& (after == 1) <==> (((before == 0 || before == 2) && n == 3) || (before == 1 && (n == 2 || n == 3)))
            &&& (before == 0 || before == 2) && n != 3 ==> after == before
            &&& before == 1 && (n < 2 || n > 3) ==> after == 0
            &&& before > 2 ==> after == before
            &&& after <= 2 || after == before
        }),
        next_generation(g)[r][c].position_x == g[r][c].position_x,
        next_generation(g)[r][c].position_y == g[r][c].position_y,
        next_generation(g).len() == g.len(),
        next_generation(g)[r].len() == g[r].len(),
{
}

/// The squares of one row are those of its live cells, in order.
pub proof fn lemma_row_rects(row: Seq<Cell>)
    ensures
        live_rects_of_row(row) == live_cells_of_row(row).map_values(|cell: Cell| cell_rect(cell)),
    decreases row.len(),
{
    reveal(Seq::filter);
    if row.len() > 0 {
        lemma_row_rects(row.drop_last());
        assert(live_rects_of_row(row) =~= live_cells_of_row(row).map_values(|cell: Cell| cell_rect(cell)));
    } else {
        assert(live_rects_of_row(row) =~= live_cells_of_row(row).map_values(|cell: Cell| cell_rect(cell)));
    }
}

/// Every live cell that a row lists is a cell of that row.
pub proof fn lemma_live_cells_in_row(row: Seq<Cell>)
    ensures
        forall|k: int| 0 <= k < live_cells_of_row(row).len() ==> row.contains(#[trigger] live_cells_of_row(row)[k]),
    decreases row.len(),
{
    reveal(Seq::filter);
    if row.len() > 0 {
        let p = row.drop_last();
        lemma_live_cells_in_row(p);
        let lp = live_cells_of_row(p);
        let lr = live_cells_of_row(row);
        assert(lr == if row.last().is_fill == 1 { lp.push(row.last()) } else { lp });
        assert forall|k: int| 0 <= k < lr.len() implies row.contains(#[trigger] lr[k]) by {
            if k < lp.len() {
                assert(lr[k] == lp[k]);
                let c = choose|c: int| 0 <= c < p.len() && p[c] == lp[k];
                assert(row[c] == p[c]);
            } else {
                assert(row[row.len() - 1] == lr[k]);
            }
        }
    }
}

/// One square per live cell of a row: as many squares as live cells, the
/// square of every live cell among them, and each square that of a live cell
/// of the row.
pub proof fn lemma_row_rects_per_cell(row: Seq<Cell>)
    ensures
        live_rects_of_row(row).len() == live_cells_of_row(row).len(),
        forall|c: int| 0 <= c < row.len() && #[trigger] row[c].is_fill == 1 ==>
            live_rects_of_row(row).contains(cell_rect(row[c])),
        forall|i: int| #![trigger live_rects_of_row(row)[i]] 0 <= i < live_rects_of_row(row).len() ==> {
            &&& live_rects_of_row(row)[i] == cell_rect(live_cells_of_row(row)[i])
            &&& live_cells_of_row(row)[i].is_fill == 1
            &&& row.contains(live_cells_of_row(row)[i])
        },
{
    broadcast use vstd::seq_lib::group_filter_ensures;
    lemma_row_rects(row);
    lemma_live_cells_in_row(row);
    let pred = |cell: Cell| cell.is_fill == 1;
    let live = live_cells_of_row(row);
    let rects = live_rects_of_row(row);
    assert forall|c: int| 0 <= c < row.len() && #[trigger] row[c].is_fill == 1 implies rects.contains(cell_rect(row[c])) by {
        row.lemma_filter_contains(pred, c);
        let k = choose|k: int| 0 <= k < live.len() && live[k] == row[c];
        assert(rects[k] == cell_rect(live[k]));
    }
    assert forall|i: int| #![trigger rects[i]] 0 <= i < rects.len() implies live[i].is_fill == 1 by {
        row.lemma_filter_pred(pred, i);
    }
}

/// The live cells of a board, in reading order.
pub open spec fn live_cells(g: Seq<Seq<Cell>>) -> Seq<Cell>
    decreases g.len(),
{
    if g.len() == 0 {
        Seq::empty()
    } else {
        live_cells(g.drop_last()) + live_cells_of_row(g.last())
    }
}

/// Whether a cell stands in some row of the board.
pub open spec fn on_board(g: Seq<Seq<Cell>>, cell: Cell) -> bool {
    exists|r: int| 0 <= r < g.len() && #[trigger] g[r].contains(cell)
}

/// One square per live cell of the board: as many squares as the board has
/// live cells, the square of every live cell among them, and each square that
/// of a live cell of the board.
pub proof fn lemma_live_rects(g: Seq<Seq<Cell>>)
    ensures
        live_rects(g).len() == live_cell_count(g),
        live_cells(g).len() == live_cell_count(g),
        forall|r: int, c: int| 0 <= r < g.len() && 0 <= c < g[r].len() && #[trigger] g[r][c].is_fill == 1 ==>
            live_rects(g).contains(cell_rect(g[r][c])),
        forall|i: int| #![trigger live_rects(g)[i]] 0 <= i < live_rects(g).len() ==> {
            &&& live_rects(g)[i] == cell_rect(live_cells(g)[i])
            &&& live_cells(g)[i].is_fill == 1
            &&& on_board(g, live_cells(g)[i])
        },
    decreases g.len(),
{
    if g.len() > 0 {
        let p = g.drop_last();
        let last = g.last();
        lemma_live_rects(p);
        lemma_row_rects_per_cell(last);
        let rp = live_rects(p);
        let rl = live_rects_of_row(last);
        let rg = live_rects(g);
        let cp = live_cells(p);
        let cl = live_cells_of_row(last);
        let cg = live_cells(g);
        assert(rg == rp + rl);
        assert(cg == cp + cl);
        assert forall|r: int, c: int| 0 <= r < g.len() && 0 <= c < g[r].len() && #[trigger] g[r][c].is_fill == 1 implies rg.contains(
            cell_rect(g[r][c]),
        ) by {
            if r < g.len() - 1 {
                assert(p[r] == g[r]);
                assert(p[r][c].is_fill == 1);
                let k = choose|k: int| 0 <= k < rp.len() && rp[k] == cell_rect(p[r][c]);
                assert(rg[k] == rp[k]);
            } else {
                assert(last[c].is_fill == 1);
                let k = choose|k: int| 0 <= k < rl.len() && rl[k] == cell_rect(last[c]);
                assert(rg[rp.len() + k] == rl[k]);
            }
        }
        assert forall|i: int| #![trigger rg[i]] 0 <= i < rg.len() implies {
            &&& rg[i] == cell_rect(cg[i])
            &&& cg[i].is_fill == 1
            &&& on_board(g, cg[i])
        } by {
            if i < rp.len() {
                assert(rg[i] == rp[i]);
                assert(cg[i] == cp[i]);
                assert(on_board(p, cp[i]));
                let r = choose|r: int| 0 <= r < p.len() && #[trigger] p[r].contains(cp[i]);
                assert(g[r] == p[r]);
            } else {
                let k = i - rp.len();
                assert(rg[i] == rl[k]);
                assert(cg[i] == cl[k]);
                assert(rl[k] == cell_rect(cl[k]));
                assert(g[g.len() - 1] == last);
                assert(g[g.len() - 1].contains(cg[i]));
            }
        }
    }
}

/// Filling gives every cell its own value: the cell at row `r`, column `c`
/// holds value number `r * 825 + c`, and two different cells hold values of
/// two different numbers.
pub proof fn lemma_filled_cell(fills: Seq<u8>, r: int, c: int, r2: int, c2: int)
    requires
        0 <= r < rows(),
        0 <= c < cols(),
        0 <= r2 < rows(),
        0 <= c2 < cols(),
        fills.len() == cell_count(),
    ensures
        0 <= r * cols() + c < fills.len(),
        filled_grid(fills)[r][c].is_fill == fills[r * cols() + c],
        filled_grid(fills)[r][c].position_x == c + 1,
        filled_grid(fills)[r][c].position_y == r + 1,
        (r, c) != (r2, c2) ==> r * cols() + c != r2 * cols() + c2,
{
    lemma_cell_count();
    assert(0 <= r * 825 + c < 346500) by (nonlinear_arith)
        requires
            0 <= r < 420,
            0 <= c < 825,
    ;
    assert((r, c) != (r2, c2) ==> r * 825 + c != r2 * 825 + c2) by (nonlinear_arith)
        requires
            0 <= c < 825,
            0 <= c2 < 825,
    ;
}

} // verus!
