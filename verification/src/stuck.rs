//! The end of the game: a board with a tile on it is terminal exactly if no move can change
//! it.

use crate::board::{
    is_grid, lemma_occupied_whole, occupied, on_board, tile_count, Grid, BOARD_SIZE,
};
use crate::game::{is_terminal, values, GameAction};
use crate::laws::lemma_unchanged_slide;
use crate::mass::{lemma_four_cells, lemma_four_rows};
use crate::merge::{
    lemma_merged_holds_tiles, lemma_merged_len, lemma_merged_uses_each_tile_once,
    lemma_merged_with_pair, lemma_merged_without_pairs, merged,
};
use crate::slide::{
    lemma_full_line_stays, line_cell, line_cells, line_of, line_tiles, slid, slide_earned,
};
use vstd::prelude::*;

verus! {

/// Whether no move changes the grid, whatever its direction.
pub open spec fn is_stuck(grid: Grid) -> bool {
    forall|direction: GameAction| values(#[trigger] slid(grid, direction)) == grid
}

/// On a terminal grid a slide leaves every line as it was.
proof fn lemma_terminal_line_stays(grid: Grid, direction: GameAction, line: int)
    requires
        is_grid(grid),
        is_terminal(grid),
        0 <= line < BOARD_SIZE,
    ensures
        merged(line_tiles(grid, direction, line), BOARD_SIZE as nat).len() == BOARD_SIZE,
{
    let cells = line_cells(grid, direction, line);
    let tiles = occupied(cells);
    assert forall|place: int| 0 <= place < BOARD_SIZE implies (#[trigger] cells[place]) is Some by {
        let (row, col) = line_cell(direction, line, place);
        assert(grid[row][col] is Some);
    }
    lemma_four_cells(cells);
    lemma_occupied_whole(cells);
    assert forall|i: int| 0 <= i < tiles.len() - 1 implies #[trigger] tiles[i] != tiles[i
        + 1] by {
        let (row, col) = line_cell(direction, line, i);
        let (next_row, next_col) = line_cell(direction, line, i + 1);
        assert(cells[i] == grid[row][col]);
        assert(cells[i + 1] == grid[next_row][next_col]);
        match direction {
            GameAction::Up => {
                assert(grid[row][col] != grid[row + 1][col]);
            },
            GameAction::Down => {
                assert(grid[next_row][next_col] != grid[next_row + 1][next_col]);
            },
            GameAction::Left => {
                assert(grid[row][col] != grid[row][col + 1]);
            },
            GameAction::Right => {
                assert(grid[next_row][next_col] != grid[next_row][next_col + 1]);
            },
        }
    }
    lemma_merged_without_pairs(tiles, BOARD_SIZE as nat);
}

/// A terminal grid is stuck: no move changes it, and none earns anything.
pub proof fn lemma_terminal_is_stuck(grid: Grid, direction: GameAction)
    requires
        is_grid(grid),
        is_terminal(grid),
    ensures
        values(slid(grid, direction)) == grid,
        slide_earned(grid, direction) == 0,
{
    let after = slid(grid, direction);
    assert forall|row: int, col: int|
        on_board(row, col) implies (#[trigger] after[row][col]).value
        == grid[row][col] by {
        let (line, place) = line_of(direction, row, col);
        lemma_terminal_line_stays(grid, direction, line);
        lemma_full_line_stays(grid, direction, line);
        assert(line_cell(direction, line, place) == (row, col));
    }
    assert(values(after) =~~= grid);
    lemma_unchanged_slide(grid, direction);
}

/// A line that holds a tile and an empty cell moves when pushed one way or the other.
proof fn lemma_gapped_line_moves(
    grid: Grid,
    front: GameAction,
    back: GameAction,
    line: int,
    tile_at: int,
    gap_at: int,
)
    requires
        is_grid(grid),
        (front == GameAction::Left && back == GameAction::Right) || (front == GameAction::Up
            && back == GameAction::Down),
        0 <= line < BOARD_SIZE,
        0 <= tile_at < BOARD_SIZE,
        0 <= gap_at < BOARD_SIZE,
        line_cells(grid, front, line)[tile_at] is Some,
        line_cells(grid, front, line)[gap_at] is None,
    ensures
        values(slid(grid, front)) != grid || values(slid(grid, back)) != grid,
{
    if values(slid(grid, front)) == grid && values(slid(grid, back)) == grid {
        let last = line_cell(front, line, BOARD_SIZE - 1);
        // Pushed backward, the line's tiles come to rest at its far end, which therefore
        // held a tile all along.
        let back_cells = line_cells(grid, back, line);
        let back_results = merged(occupied(back_cells), BOARD_SIZE as nat);
        assert(back_cells[BOARD_SIZE - 1 - tile_at] == line_cells(grid, front, line)[tile_at]);
        lemma_four_cells(back_cells);
        lemma_occupied_whole(back_cells);
        lemma_merged_uses_each_tile_once(occupied(back_cells), BOARD_SIZE as nat);
        lemma_merged_holds_tiles(occupied(back_cells), BOARD_SIZE as nat);
        assert(line_of(back, last.0, last.1) == (line, 0int));
        assert(back_results[0].value is Some);
        assert(values(slid(grid, back))[last.0][last.1] is Some);
        assert(grid[last.0][last.1] is Some);
        // Pushed forward, the line is filled from its near end, so it is full.
        let front_results = merged(line_tiles(grid, front, line), BOARD_SIZE as nat);
        lemma_merged_len(line_tiles(grid, front, line), BOARD_SIZE as nat);
        assert(line_of(front, last.0, last.1) == (line, BOARD_SIZE - 1));
        assert(values(slid(grid, front))[last.0][last.1] is Some);
        assert(front_results.len() == BOARD_SIZE);
        let gap = line_cell(front, line, gap_at);
        assert(line_of(front, gap.0, gap.1) == (line, gap_at));
        lemma_merged_holds_tiles(line_tiles(grid, front, line), BOARD_SIZE as nat);
        assert(values(slid(grid, front))[gap.0][gap.1] is Some);
        assert(grid[gap.0][gap.1] is None);
    }
}

/// On a stuck grid with a tile on it no cell is empty.
proof fn lemma_stuck_grid_is_full(grid: Grid, row: int, col: int)
    requires
        is_grid(grid),
        tile_count(grid) > 0,
        is_stuck(grid),
        0 <= row < BOARD_SIZE,
        0 <= col < BOARD_SIZE,
    ensures
        grid[row][col] is Some,
{
    if grid[row][col] is None {
        lemma_four_rows(grid);
        lemma_four_cells(grid[0]);
        lemma_four_cells(grid[1]);
        lemma_four_cells(grid[2]);
        lemma_four_cells(grid[3]);
        let (tile_row, tile_col) = choose|r: int, c: int|
            on_board(r, c) && (#[trigger] grid[r][c]) is Some;
        assert(values(slid(grid, GameAction::Left)) == grid);
        assert(values(slid(grid, GameAction::Right)) == grid);
        assert(values(slid(grid, GameAction::Up)) == grid);
        assert(values(slid(grid, GameAction::Down)) == grid);
        if grid[tile_row][col] is None {
            assert(line_cells(grid, GameAction::Left, tile_row)[tile_col] is Some);
            assert(line_cells(grid, GameAction::Left, tile_row)[col] is None);
            lemma_gapped_line_moves(
                grid,
                GameAction::Left,
                GameAction::Right,
                tile_row,
                tile_col,
                col,
            );
        } else {
            assert(line_cells(grid, GameAction::Up, col)[tile_row] is Some);
            assert(line_cells(grid, GameAction::Up, col)[row] is None);
            lemma_gapped_line_moves(grid, GameAction::Up, GameAction::Down, col, tile_row, row);
        }
    }
}

/// A full line with two equal neighbours changes when pushed toward its front.
proof fn lemma_paired_line_moves(grid: Grid, front: GameAction, line: int, place: int)
    requires
        is_grid(grid),
        front == GameAction::Left || front == GameAction::Up,
        0 <= line < BOARD_SIZE,
        0 <= place < BOARD_SIZE - 1,
        forall|p: int|
            0 <= p < BOARD_SIZE ==> (#[trigger] line_cells(grid, front, line)[p]) is Some,
        line_cells(grid, front, line)[place] == line_cells(grid, front, line)[place + 1],
    ensures
        values(slid(grid, front)) != grid,
{
    let cells = line_cells(grid, front, line);
    let tiles = occupied(cells);
    assert(cells[0] is Some && cells[1] is Some && cells[2] is Some && cells[3] is Some);
    lemma_four_cells(cells);
    lemma_occupied_whole(cells);
    assert(cells[place] == Some(tiles[place]));
    assert(cells[place + 1] == Some(tiles[place + 1]));
    lemma_merged_with_pair(tiles, BOARD_SIZE as nat, place);
    let last = line_cell(front, line, BOARD_SIZE - 1);
    assert(line_of(front, last.0, last.1) == (line, BOARD_SIZE - 1));
    assert(cells[BOARD_SIZE - 1] == grid[last.0][last.1]);
    assert(values(slid(grid, front))[last.0][last.1] is None);
}

/// A stuck grid with a tile on it is terminal. Together with
/// [`lemma_terminal_is_stuck`]: as soon as there is a tile, the game is over exactly when no
/// move can change the board.
pub proof fn lemma_stuck_is_terminal(grid: Grid)
    requires
        is_grid(grid),
        tile_count(grid) > 0,
        is_stuck(grid),
    ensures
        is_terminal(grid),
{
    assert forall|row: int, col: int|
        on_board(row, col) implies (#[trigger] grid[row][col])
        is Some by {
        lemma_stuck_grid_is_full(grid, row, col);
    }
    assert(values(slid(grid, GameAction::Left)) == grid);
    assert(values(slid(grid, GameAction::Up)) == grid);
    assert forall|row: int, col: int|
        0 <= row < BOARD_SIZE && 0 <= col < BOARD_SIZE - 1 implies #[trigger] grid[row][col]
        != grid[row][col + 1] by {
        if grid[row][col] == grid[row][col + 1] {
            assert forall|p: int| 0 <= p < BOARD_SIZE implies (#[trigger] line_cells(
                grid,
                GameAction::Left,
                row,
            )[p]) is Some by {
                assert(grid[row][p] is Some);
            }
            lemma_paired_line_moves(grid, GameAction::Left, row, col);
        }
    }
    assert forall|row: int, col: int|
        0 <= row < BOARD_SIZE - 1 && 0 <= col < BOARD_SIZE implies #[trigger] grid[row][col]
        != grid[row + 1][col] by {
        if grid[row][col] == grid[row + 1][col] {
            assert forall|p: int| 0 <= p < BOARD_SIZE implies (#[trigger] line_cells(
                grid,
                GameAction::Up,
                col,
            )[p]) is Some by {
                assert(grid[p][col] is Some);
            }
            lemma_paired_line_moves(grid, GameAction::Up, col, row);
        }
    }
}

} // verus!
