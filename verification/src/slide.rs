//! Sliding a whole grid: the four parallel lines of a direction, each merged on its own.

use crate::board::{
    column, empty_grid, is_grid, lemma_occupied_reverse, lemma_occupied_whole, occupied,
    on_board, Grid, BOARD_SIZE,
};
use crate::game::{has_empty, unmerged, values, CellResult, Cells, GameAction};
use crate::merge::{earned, lemma_merged_len, lemma_merged_whole, merged, merges_fit, written};
use vstd::prelude::*;

verus! {

/// Row and column of the `place`-th cell of line `line`, counted from the edge that the
/// tiles are pushed toward. The lines of `Left` and `Right` are the rows, those of `Up` and
/// `Down` the columns.
pub open spec fn line_cell(direction: GameAction, line: int, place: int) -> (int, int) {
    match direction {
        GameAction::Up => (place, line),
        GameAction::Down => (BOARD_SIZE - 1 - place, line),
        GameAction::Left => (line, place),
        GameAction::Right => (line, BOARD_SIZE - 1 - place),
    }
}

/// The line that the cell at `(row, col)` lies on, and the cell's place on it.
pub open spec fn line_of(direction: GameAction, row: int, col: int) -> (int, int) {
    match direction {
        GameAction::Up => (col, row),
        GameAction::Down => (col, BOARD_SIZE - 1 - row),
        GameAction::Left => (row, col),
        GameAction::Right => (row, BOARD_SIZE - 1 - col),
    }
}

/// The cells of one line, read from the edge that the tiles are pushed toward.
pub open spec fn line_cells(grid: Grid, direction: GameAction, line: int) -> Seq<Option<u32>> {
    Seq::new(
        BOARD_SIZE as nat,
        |place: int|
            grid[line_cell(direction, line, place).0][line_cell(direction, line, place).1],
    )
}

/// The tiles of one line in the order in which they travel.
pub open spec fn line_tiles(grid: Grid, direction: GameAction, line: int) -> Seq<u32> {
    occupied(line_cells(grid, direction, line))
}

/// What sliding leaves in the cell at `(row, col)`: nothing, if no tile comes to rest there.
pub open spec fn landing(grid: Grid, direction: GameAction, row: int, col: int) -> Option<
    CellResult,
> {
    let (line, place) = line_of(direction, row, col);
    let results = merged(line_tiles(grid, direction, line), BOARD_SIZE as nat);
    if place < results.len() {
        Some(results[place])
    } else {
        None
    }
}

/// The cells after the tiles of `grid` slid in `direction`, written over `under`: a cell
/// where no tile came to rest shows what `under` has there.
pub open spec fn slid_over(grid: Grid, direction: GameAction, under: Cells) -> Cells {
    Seq::new(
        BOARD_SIZE as nat,
        |row: int|
            Seq::new(
                BOARD_SIZE as nat,
                |col: int|
                    match landing(grid, direction, row, col) {
                        Some(cell) => cell,
                        None => under[row][col],
                    },
            ),
    )
}

/// The cells after the tiles of `grid` slid in `direction`.
pub open spec fn slid(grid: Grid, direction: GameAction) -> Cells {
    slid_over(grid, direction, unmerged(empty_grid()))
}

/// The score earned by the first `lines` lines when `grid` slides in `direction`.
pub open spec fn earned_by_lines(grid: Grid, direction: GameAction, lines: nat) -> nat
    decreases lines,
{
    if lines == 0 {
        0
    } else {
        earned_by_lines(grid, direction, (lines - 1) as nat) + earned(
            line_tiles(grid, direction, lines - 1),
            BOARD_SIZE as nat,
        )
    }
}

/// The score earned when `grid` slides in `direction`: the sum of all tiles that merging
/// produced.
pub open spec fn slide_earned(grid: Grid, direction: GameAction) -> nat {
    earned_by_lines(grid, direction, BOARD_SIZE as nat)
}

/// Whether every tile that sliding `grid` in `direction` produces fits into a `u32`.
pub open spec fn slide_fits(grid: Grid, direction: GameAction) -> bool {
    forall|line: int|
        0 <= line < BOARD_SIZE ==> merges_fit(
            #[trigger] line_tiles(grid, direction, line),
            BOARD_SIZE as nat,
        )
}

/// The score earned by some of the lines is at most what all of them earn.
pub proof fn lemma_earned_by_lines_grows(grid: Grid, direction: GameAction, lines: nat)
    requires
        lines <= BOARD_SIZE,
    ensures
        earned_by_lines(grid, direction, lines) <= slide_earned(grid, direction),
    decreases BOARD_SIZE - lines,
{
    if lines < BOARD_SIZE {
        lemma_earned_by_lines_grows(grid, direction, lines + 1);
    }
}

/// Writing the results of one line to that line's cells, in order, changes exactly the first
/// cells of the line.
pub proof fn lemma_written_on_line(
    previous: CellResult,
    positions: Seq<(usize, usize)>,
    results: Seq<CellResult>,
    direction: GameAction,
    line: int,
    row: int,
    col: int,
)
    requires
        positions.len() == BOARD_SIZE,
        forall|place: int|
            0 <= place < BOARD_SIZE ==> (#[trigger] positions[place]).0 == line_cell(
                direction,
                line,
                place,
            ).0 && positions[place].1 == line_cell(direction, line, place).1,
        results.len() <= BOARD_SIZE,
    ensures
        written(previous, positions, results, row, col) == if line_of(direction, row, col).0
            == line && 0 <= line_of(direction, row, col).1 < results.len() {
            results[line_of(direction, row, col).1]
        } else {
            previous
        },
    decreases results.len(),
{
    if results.len() > 0 {
        lemma_written_on_line(previous, positions, results.drop_last(), direction, line, row, col);
        let last = results.len() - 1;
        assert(positions[last].0 == line_cell(direction, line, last).0);
    }
}

/// The cells of a column read bottom-up are the cells of the line that `Down` pushes, and
/// likewise for rows and `Right`.
pub proof fn lemma_line_tiles(grid: Grid, direction: GameAction, line: int)
    requires
        crate::board::is_grid(grid),
        0 <= line < BOARD_SIZE,
    ensures
        line_tiles(grid, direction, line) == match direction {
            GameAction::Up => occupied(column(grid, line)),
            GameAction::Down => occupied(column(grid, line)).reverse(),
            GameAction::Left => occupied(grid[line]),
            GameAction::Right => occupied(grid[line]).reverse(),
        },
{
    match direction {
        GameAction::Up => {
            assert(line_cells(grid, direction, line) =~= column(grid, line));
        },
        GameAction::Down => {
            assert(line_cells(grid, direction, line) =~= column(grid, line).reverse());
            lemma_occupied_reverse(column(grid, line));
        },
        GameAction::Left => {
            assert(line_cells(grid, direction, line) =~= grid[line]);
        },
        GameAction::Right => {
            assert(line_cells(grid, direction, line) =~= grid[line].reverse());
            lemma_occupied_reverse(grid[line]);
        },
    }
}

/// A line that ends up full after sliding has not changed: every cell holds the tile it held
/// before, and nothing merged.
pub proof fn lemma_full_line_stays(grid: Grid, direction: GameAction, line: int)
    requires
        is_grid(grid),
        0 <= line < BOARD_SIZE,
        merged(line_tiles(grid, direction, line), BOARD_SIZE as nat).len() == BOARD_SIZE,
    ensures
        earned(line_tiles(grid, direction, line), BOARD_SIZE as nat) == 0,
        forall|place: int|
            0 <= place < BOARD_SIZE ==> #[trigger] merged(
                line_tiles(grid, direction, line),
                BOARD_SIZE as nat,
            )[place] == (CellResult {
                value: line_cells(grid, direction, line)[place],
                merged: false,
            }),
{
    let cells = line_cells(grid, direction, line);
    lemma_merged_len(occupied(cells), BOARD_SIZE as nat);
    lemma_occupied_whole(cells);
    lemma_merged_whole(occupied(cells), BOARD_SIZE as nat);
}

/// A slide that changes the grid leaves at least one cell empty.
pub proof fn lemma_changed_slide_leaves_room(grid: Grid, direction: GameAction)
    requires
        is_grid(grid),
        values(slid(grid, direction)) != grid,
    ensures
        has_empty(slid(grid, direction)),
{
    let after = slid(grid, direction);
    if !has_empty(after) {
        assert forall|row: int, col: int| on_board(row, col) implies (
        #[trigger] after[row][col]).value == grid[row][col] by {
            let (line, place) = line_of(direction, row, col);
            let end = line_cell(direction, line, BOARD_SIZE - 1);
            assert(after[end.0][end.1].value is Some);
            assert(line_of(direction, end.0, end.1) == (line, BOARD_SIZE - 1));
            assert(landing(grid, direction, end.0, end.1) is Some);
            lemma_merged_len(line_tiles(grid, direction, line), BOARD_SIZE as nat);
            lemma_full_line_stays(grid, direction, line);
            assert(line_cell(direction, line, place) == (row, col));
        }
        assert(values(after) =~~= grid);
    }
}

} // verus!
