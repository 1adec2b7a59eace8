//! Counting and weighing the tiles of a grid: sliding conserves their sum, and a spawn adds
//! one tile to it.

use crate::board::{
    is_grid, lemma_occupied_whole, occupied, sum_of, tile_count, tile_sum, Grid, BOARD_SIZE,
};
use crate::game::{
    is_board, is_opening, tiles_at, values, with_tile, CellResult, Cells, GameAction,
    GameState,
};
use crate::merge::{earned, front_pair, lemma_merged_len, merged, merges_fit};
use crate::slide::{
    earned_by_lines, line_cell, line_cells, line_of, line_tiles, slid, slide_earned,
    slide_fits,
};
use vstd::prelude::*;

verus! {

/// What a cell weighs: its tile, or nothing.
pub(crate) open spec fn tile_value(cell: Option<u32>) -> nat {
    match cell {
        Some(tile) => tile as nat,
        None => 0,
    }
}

/// What a cell counts for: one if it holds a tile.
pub(crate) open spec fn tile_unit(cell: Option<u32>) -> nat {
    match cell {
        Some(_) => 1,
        None => 0,
    }
}

/// The sum of the tiles that a run of merge results shows.
spec fn results_sum(results: Seq<CellResult>) -> nat
    decreases results.len(),
{
    if results.len() == 0 {
        0
    } else {
        tile_value(results[0].value) + results_sum(results.skip(1))
    }
}

/// One more tile at the end adds its value to the sum.
proof fn lemma_sum_of_push(tiles: Seq<u32>, tile: u32)
    ensures
        sum_of(tiles.push(tile)) == sum_of(tiles) + tile,
    decreases tiles.len(),
{
    if tiles.len() == 0 {
        assert(tiles.push(tile).skip(1) =~= Seq::<u32>::empty());
        reveal_with_fuel(sum_of, 2);
    } else {
        assert(tiles.push(tile).skip(1) =~= tiles.skip(1).push(tile));
        lemma_sum_of_push(tiles.skip(1), tile);
    }
}

/// The tiles of four cells add up to, and number, what the cells hold one by one.
pub(crate) proof fn lemma_four_cells(cells: Seq<Option<u32>>)
    requires
        cells.len() == BOARD_SIZE,
    ensures
        sum_of(occupied(cells)) == tile_value(cells[0]) + tile_value(cells[1]) + tile_value(
            cells[2],
        ) + tile_value(cells[3]),
        occupied(cells).len() == tile_unit(cells[0]) + tile_unit(cells[1]) + tile_unit(cells[2])
            + tile_unit(cells[3]),
{
    let three = cells.drop_last();
    let two = three.drop_last();
    let one = two.drop_last();
    assert(one.drop_last() =~= Seq::<Option<u32>>::empty());
    reveal_with_fuel(occupied, 5);
    assert(sum_of(occupied(one.drop_last())) == 0);
    if cells[0] is Some {
        lemma_sum_of_push(occupied(one.drop_last()), cells[0]->0);
    }
    if cells[1] is Some {
        lemma_sum_of_push(occupied(one), cells[1]->0);
    }
    if cells[2] is Some {
        lemma_sum_of_push(occupied(two), cells[2]->0);
    }
    if cells[3] is Some {
        lemma_sum_of_push(occupied(three), cells[3]->0);
    }
}

/// The tiles of a grid add up to, and number, what its four rows hold.
pub(crate) proof fn lemma_four_rows(grid: Grid)
    requires
        is_grid(grid),
    ensures
        tile_sum(grid) == sum_of(occupied(grid[0])) + sum_of(occupied(grid[1])) + sum_of(
            occupied(grid[2]),
        ) + sum_of(occupied(grid[3])),
        tile_count(grid) == occupied(grid[0]).len() + occupied(grid[1]).len() + occupied(
            grid[2],
        ).len() + occupied(grid[3]).len(),
{
    reveal_with_fuel(tile_sum, 5);
    reveal_with_fuel(tile_count, 5);
    let three = grid.drop_last();
    let two = three.drop_last();
    let one = two.drop_last();
    assert(one.drop_last() =~= Seq::<Seq<Option<u32>>>::empty());
}

/// The value of the cell at `(row, col)`.
#[verifier::opaque]
spec fn weight(grid: Grid, row: int, col: int) -> nat {
    tile_value(grid[row][col])
}

/// The tiles of a grid add up to what its sixteen cells hold.
proof fn lemma_sixteen_cells(grid: Grid)
    requires
        is_grid(grid),
    ensures
        tile_sum(grid) == weight(grid, 0, 0) + weight(grid, 0, 1) + weight(grid, 0, 2) + weight(
            grid,
            0,
            3,
        ) + weight(grid, 1, 0) + weight(grid, 1, 1) + weight(grid, 1, 2) + weight(grid, 1, 3)
            + weight(grid, 2, 0) + weight(grid, 2, 1) + weight(grid, 2, 2) + weight(grid, 2, 3)
            + weight(grid, 3, 0) + weight(grid, 3, 1) + weight(grid, 3, 2) + weight(grid, 3, 3),
{
    reveal(weight);
    lemma_four_rows(grid);
    lemma_four_cells(grid[0]);
    lemma_four_cells(grid[1]);
    lemma_four_cells(grid[2]);
    lemma_four_cells(grid[3]);
}

/// The value of the cell at place `place` of line `line`.
spec fn weight_on_line(grid: Grid, direction: GameAction, line: int, place: int) -> nat {
    weight(grid, line_cell(direction, line, place).0, line_cell(direction, line, place).1)
}

/// The tiles of a line add up to what its four cells hold.
proof fn lemma_line_weights(grid: Grid, direction: GameAction, line: int)
    requires
        is_grid(grid),
        0 <= line < BOARD_SIZE,
    ensures
        sum_of(line_tiles(grid, direction, line)) == weight_on_line(grid, direction, line, 0)
            + weight_on_line(grid, direction, line, 1) + weight_on_line(grid, direction, line, 2)
            + weight_on_line(grid, direction, line, 3),
{
    reveal(weight);
    lemma_four_cells(line_cells(grid, direction, line));
}

/// The tiles of a grid add up to what the four lines of any direction hold.
proof fn lemma_sum_by_lines(grid: Grid, direction: GameAction)
    requires
        is_grid(grid),
    ensures
        tile_sum(grid) == sum_of(line_tiles(grid, direction, 0)) + sum_of(
            line_tiles(grid, direction, 1),
        ) + sum_of(line_tiles(grid, direction, 2)) + sum_of(line_tiles(grid, direction, 3)),
{
    lemma_sixteen_cells(grid);
    lemma_line_weights(grid, direction, 0);
    lemma_line_weights(grid, direction, 1);
    lemma_line_weights(grid, direction, 2);
    lemma_line_weights(grid, direction, 3);
    match direction {
        GameAction::Up => {},
        GameAction::Down => {},
        GameAction::Left => {},
        GameAction::Right => {},
    }
}

/// Merging moves value around without creating or losing any, provided there is room for
/// every tile.
proof fn lemma_merged_sum(tiles: Seq<u32>, room: nat)
    requires
        tiles.len() <= room,
        merges_fit(tiles, room),
    ensures
        results_sum(merged(tiles, room)) == sum_of(tiles),
    decreases tiles.len(),
{
    if room == 0 || tiles.len() == 0 {
    } else if front_pair(tiles) {
        let rest = merged(tiles.skip(2), (room - 1) as nat);
        lemma_merged_sum(tiles.skip(2), (room - 1) as nat);
        assert(merged(tiles, room).skip(1) =~= rest);
        reveal_with_fuel(sum_of, 2);
        assert(tiles.skip(1).skip(1) =~= tiles.skip(2));
    } else {
        let rest = merged(tiles.skip(1), (room - 1) as nat);
        lemma_merged_sum(tiles.skip(1), (room - 1) as nat);
        assert(merged(tiles, room).skip(1) =~= rest);
    }
}

/// At most four merge results add up to what they show one by one.
proof fn lemma_four_results(results: Seq<CellResult>)
    requires
        results.len() <= BOARD_SIZE,
    ensures
        results_sum(results) == (if 0 < results.len() {
            tile_value(results[0].value)
        } else {
            0
        }) + (if 1 < results.len() {
            tile_value(results[1].value)
        } else {
            0
        }) + (if 2 < results.len() {
            tile_value(results[2].value)
        } else {
            0
        }) + (if 3 < results.len() {
            tile_value(results[3].value)
        } else {
            0
        }),
{
    reveal_with_fuel(results_sum, 5);
}

/// The line `line` of the slid grid holds what the line held before.
proof fn lemma_line_keeps_sum(grid: Grid, direction: GameAction, line: int)
    requires
        is_grid(grid),
        slide_fits(grid, direction),
        0 <= line < BOARD_SIZE,
    ensures
        sum_of(line_tiles(values(slid(grid, direction)), direction, line)) == sum_of(
            line_tiles(grid, direction, line),
        ),
{
    let tiles = line_tiles(grid, direction, line);
    let results = merged(tiles, BOARD_SIZE as nat);
    let after = line_cells(values(slid(grid, direction)), direction, line);
    lemma_occupied_whole(line_cells(grid, direction, line));
    lemma_merged_len(tiles, BOARD_SIZE as nat);
    lemma_merged_sum(tiles, BOARD_SIZE as nat);
    lemma_four_results(results);
    lemma_four_cells(after);
    assert forall|place: int| 0 <= place < BOARD_SIZE implies #[trigger] after[place] == (if place
        < results.len() {
        results[place].value
    } else {
        None
    }) by {
        let (row, col) = line_cell(direction, line, place);
        assert(line_of(direction, row, col) == (line, place));
    }
}

/// Sliding conserves mass: the tiles on the grid add up to the same before and after, for
/// merging two tiles leaves one tile of their sum.
pub proof fn lemma_slide_conserves_mass(grid: Grid, direction: GameAction)
    requires
        is_grid(grid),
        slide_fits(grid, direction),
    ensures
        tile_sum(values(slid(grid, direction))) == tile_sum(grid),
{
    let after = values(slid(grid, direction));
    lemma_sum_by_lines(grid, direction);
    lemma_sum_by_lines(after, direction);
    lemma_line_keeps_sum(grid, direction, 0);
    lemma_line_keeps_sum(grid, direction, 1);
    lemma_line_keeps_sum(grid, direction, 2);
    lemma_line_keeps_sum(grid, direction, 3);
}

/// Tiles that add up to no more than a `u32` holds merge into tiles that fit, and earn no
/// more than they add up to.
proof fn lemma_light_line_fits(tiles: Seq<u32>, room: nat)
    requires
        sum_of(tiles) <= u32::MAX,
    ensures
        merges_fit(tiles, room),
        earned(tiles, room) <= sum_of(tiles),
    decreases tiles.len(),
{
    if room == 0 || tiles.len() == 0 {
    } else if front_pair(tiles) {
        reveal_with_fuel(sum_of, 2);
        assert(tiles.skip(1).skip(1) =~= tiles.skip(2));
        lemma_light_line_fits(tiles.skip(2), (room - 1) as nat);
    } else {
        lemma_light_line_fits(tiles.skip(1), (room - 1) as nat);
    }
}

/// A game whose score and tiles together add up to no more than a `u32` holds can be moved
/// in every direction: what a move earns, and every tile that it merges, is part of what
/// the tiles add up to.
pub proof fn lemma_light_game_can_move(state: GameState, direction: GameAction)
    requires
        is_grid(state.cells),
        state.score + tile_sum(state.cells) <= u32::MAX,
    ensures
        state.move_fits(direction),
        slide_earned(state.cells, direction) <= tile_sum(state.cells),
{
    let grid = state.cells;
    lemma_sum_by_lines(grid, direction);
    lemma_light_line_fits(line_tiles(grid, direction, 0), BOARD_SIZE as nat);
    lemma_light_line_fits(line_tiles(grid, direction, 1), BOARD_SIZE as nat);
    lemma_light_line_fits(line_tiles(grid, direction, 2), BOARD_SIZE as nat);
    lemma_light_line_fits(line_tiles(grid, direction, 3), BOARD_SIZE as nat);
    reveal_with_fuel(earned_by_lines, 5);
}

/// A spawned tile is one tile more on the board, and adds its value to the sum of the
/// tiles.
pub proof fn lemma_spawn_adds_one_tile(before: Cells, row: int, col: int, tile: u32)
    requires
        is_board(before),
        0 <= row < BOARD_SIZE,
        0 <= col < BOARD_SIZE,
        before[row][col].value is None,
    ensures
        tile_count(values(with_tile(before, row, col, tile))) == tile_count(values(before)) + 1,
        tile_sum(values(with_tile(before, row, col, tile))) == tile_sum(values(before)) + tile,
{
    let old_grid = values(before);
    let new_grid = values(with_tile(before, row, col, tile));
    lemma_four_rows(old_grid);
    lemma_four_rows(new_grid);
    assert forall|r: int| 0 <= r < BOARD_SIZE && r != row implies #[trigger] new_grid[r]
        == old_grid[r] by {
        assert(new_grid[r] =~= old_grid[r]);
    }
    lemma_four_cells(old_grid[row]);
    lemma_four_cells(new_grid[row]);
    assert forall|c: int| 0 <= c < BOARD_SIZE implies #[trigger] new_grid[row][c] == (if c
        == col {
        Some(tile)
    } else {
        old_grid[row][c]
    }) by {}
}

/// A board on which a game starts holds exactly two tiles.
pub proof fn lemma_opening_has_two_tiles(grid: Grid)
    requires
        is_opening(grid),
    ensures
        tile_count(grid) == 2,
{
    let (first, second) = choose|first: (int, int), second: (int, int)| #[trigger]
        tiles_at(grid, first, second);
    lemma_four_rows(grid);
    assert forall|row: int| 0 <= row < BOARD_SIZE implies #[trigger] occupied(grid[row]).len() == (
    if first.0 == row {
        1nat
    } else {
        0nat
    }) + (if second.0 == row {
        1nat
    } else {
        0nat
    }) by {
        lemma_four_cells(grid[row]);
        assert(grid[row][0] is Some <==> (row, 0int) == first || (row, 0int) == second);
        assert(grid[row][1] is Some <==> (row, 1int) == first || (row, 1int) == second);
        assert(grid[row][2] is Some <==> (row, 2int) == first || (row, 2int) == second);
        assert(grid[row][3] is Some <==> (row, 3int) == first || (row, 3int) == second);
    }
}

} // verus!
