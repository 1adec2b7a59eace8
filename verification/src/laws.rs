//! What holds of every move and of every game: what a move conserves, when it is no move at
//! all, and what stays true of a game from its start on.

use crate::board::{
    is_grid, lemma_occupied_comes_from_cells, occupied, on_board, tile_count, tile_sum,
    Grid, BOARD_SIZE,
};
use crate::game::{
    is_opening, is_spawn, is_terminal, spawns, tiles_at, unmerged, values, GameAction,
    GameState, Snapshot,
};
use crate::mass::{lemma_four_cells, lemma_slide_conserves_mass, lemma_spawn_adds_one_tile};
use crate::merge::{
    earned, is_tile_value, lemma_merged_holds_tiles, lemma_merged_keeps_tile_values,
    lemma_merged_len, lemma_merged_whole, merged,
};
use crate::slide::{
    earned_by_lines, line_cell, line_cells, line_of, line_tiles, slid, slide_earned,
};
use vstd::prelude::*;

verus! {

/// On a line that sliding leaves as it was, nothing merged and nothing was earned.
proof fn lemma_unchanged_line(grid: Grid, direction: GameAction, line: int)
    requires
        is_grid(grid),
        values(slid(grid, direction)) == grid,
        0 <= line < BOARD_SIZE,
    ensures
        earned(line_tiles(grid, direction, line), BOARD_SIZE as nat) == 0,
        forall|place: int|
            0 <= place < merged(line_tiles(grid, direction, line), BOARD_SIZE as nat).len()
                ==> !(#[trigger] merged(
                line_tiles(grid, direction, line),
                BOARD_SIZE as nat,
            )[place]).merged,
{
    let cells = line_cells(grid, direction, line);
    let tiles = occupied(cells);
    let results = merged(tiles, BOARD_SIZE as nat);
    lemma_merged_len(tiles, BOARD_SIZE as nat);
    lemma_merged_holds_tiles(tiles, BOARD_SIZE as nat);
    assert forall|place: int| 0 <= place < BOARD_SIZE implies #[trigger] cells[place] is Some
        <==> place < results.len() by {
        let (row, col) = line_cell(direction, line, place);
        assert(line_of(direction, row, col) == (line, place));
        assert(values(slid(grid, direction))[row][col] == grid[row][col]);
    }
    lemma_four_cells(cells);
    lemma_merged_whole(tiles, BOARD_SIZE as nat);
}

/// Sliding that leaves the grid as it was shows every tile unmerged and earns nothing.
pub proof fn lemma_unchanged_slide(grid: Grid, direction: GameAction)
    requires
        is_grid(grid),
        values(slid(grid, direction)) == grid,
    ensures
        slid(grid, direction) == unmerged(grid),
        slide_earned(grid, direction) == 0,
{
    reveal_with_fuel(earned_by_lines, 5);
    lemma_unchanged_line(grid, direction, 0);
    lemma_unchanged_line(grid, direction, 1);
    lemma_unchanged_line(grid, direction, 2);
    lemma_unchanged_line(grid, direction, 3);
    let after = slid(grid, direction);
    assert forall|row: int, col: int|
        on_board(row, col) implies #[trigger] after[row][col]
        == unmerged(grid)[row][col] by {
        assert(values(after)[row][col] == grid[row][col]);
        let (line, place) = line_of(direction, row, col);
        assert(0 <= line < BOARD_SIZE);
    }
    assert(after =~~= unmerged(grid));
}

/// A move that reports no change is no move at all: it leaves the grid, the score and the
/// flag as they were, spawns nothing, and shows the board as it stood.
///
/// One kind of game is left out: a game put together with a terminal board and the flag
/// unset, whose first move changes nothing but the flag. No game comes to be so by being
/// played, see [`lemma_move_keeps_truth`].
pub proof fn lemma_unchanged_move_is_noop(
    before: GameState,
    direction: GameAction,
    after: GameState,
    outcome: Snapshot,
)
    requires
        is_grid(before.cells),
        before.game_over || !is_terminal(before.cells),
        before.moves_to(direction, after, outcome),
        !outcome.changed,
    ensures
        after == before,
        outcome == before.snapshot(),
{
    if !before.game_over {
        lemma_unchanged_slide(before.cells, direction);
    }
}

/// A game that is over ignores every move: nothing changes, and the snapshot is the one of
/// the game as it stands.
pub proof fn lemma_game_over_absorbs(
    before: GameState,
    direction: GameAction,
    after: GameState,
    outcome: Snapshot,
)
    requires
        before.game_over,
        before.moves_to(direction, after, outcome),
    ensures
        after == before,
        outcome == before.snapshot(),
        !outcome.changed,
        outcome.game_over,
{
}

/// Whether `states` is a run of the game in which the moves `directions` were played one
/// after the other, with `outcomes` reported.
pub open spec fn is_play(
    states: Seq<GameState>,
    directions: Seq<GameAction>,
    outcomes: Seq<Snapshot>,
) -> bool {
    &&& states.len() == directions.len() + 1
    &&& outcomes.len() == directions.len()
    &&& forall|turn: int|
        0 <= turn < directions.len() ==> (#[trigger] states[turn]).moves_to(
            directions[turn],
            states[turn + 1],
            outcomes[turn],
        )
}

/// Once a game is over it stays so, whatever moves follow and however many: the state never
/// changes again, and every move reports the same snapshot.
pub proof fn lemma_game_over_lasts(
    states: Seq<GameState>,
    directions: Seq<GameAction>,
    outcomes: Seq<Snapshot>,
    turn: int,
)
    requires
        is_play(states, directions, outcomes),
        states[0].game_over,
        0 <= turn < directions.len(),
    ensures
        states[turn + 1] == states[0],
        outcomes[turn] == states[0].snapshot(),
    decreases turn,
{
    if turn > 0 {
        lemma_game_over_lasts(states, directions, outcomes, turn - 1);
    }
    assert(states[turn].moves_to(directions[turn], states[turn + 1], outcomes[turn]));
}

/// The score never drops, and a game that is over was not revived by a move.
pub proof fn lemma_move_keeps_score_and_end(
    before: GameState,
    direction: GameAction,
    after: GameState,
    outcome: Snapshot,
)
    requires
        before.moves_to(direction, after, outcome),
    ensures
        after.score >= before.score,
        before.game_over ==> after.game_over,
        outcome.score == after.score,
        outcome.game_over == after.game_over,
{
}

/// After a move that changed the board there is exactly one tile more than the slide left:
/// a 2 or a 4, on a cell that the slide left empty, and every other cell is as the slide
/// left it.
pub proof fn lemma_changed_move_spawns_one_tile(
    before: GameState,
    direction: GameAction,
    after: GameState,
    outcome: Snapshot,
)
    requires
        before.moves_to(direction, after, outcome),
        outcome.changed,
    ensures
        is_spawn(slid(before.cells, direction), outcome.cells),
        after.cells == values(outcome.cells),
        tile_count(after.cells) == tile_count(values(slid(before.cells, direction))) + 1,
{
    let slid_cells = slid(before.cells, direction);
    let (row, col, tile) = choose|row: int, col: int, tile: u32| #[trigger]
        spawns(slid_cells, row, col, tile, outcome.cells);
    lemma_spawn_adds_one_tile(slid_cells, row, col, tile);
}

/// Mass is conserved: after a move the tiles on the board add up to what they added up to
/// before, plus the spawned tile if the move changed the board. What the move earned does
/// not enter: a merge turns two tiles into one of the same total.
pub proof fn lemma_move_conserves_mass(
    before: GameState,
    direction: GameAction,
    after: GameState,
    outcome: Snapshot,
)
    requires
        is_grid(before.cells),
        before.move_fits(direction),
        before.moves_to(direction, after, outcome),
    ensures
        !outcome.changed ==> tile_sum(after.cells) == tile_sum(before.cells),
        outcome.changed ==> exists|row: int, col: int, tile: u32|
            {
                &&& #[trigger] spawns(
                    slid(before.cells, direction),
                    row,
                    col,
                    tile,
                    outcome.cells,
                )
                &&& tile_sum(after.cells) == tile_sum(before.cells) + tile
            },
{
    if !before.game_over {
        let slid_cells = slid(before.cells, direction);
        lemma_slide_conserves_mass(before.cells, direction);
        if outcome.changed {
            let (row, col, tile) = choose|row: int, col: int, tile: u32| #[trigger]
                spawns(slid_cells, row, col, tile, outcome.cells);
            lemma_spawn_adds_one_tile(slid_cells, row, col, tile);
        }
    }
}

/// In a move that earns nothing the sum of the tiles grows by what the move earned and by
/// the spawned tile. A move that does earn something is left out: by
/// [`lemma_move_conserves_mass`] the sum then grows by the spawned tile alone.
pub proof fn lemma_mass_of_a_move_without_merge(
    before: GameState,
    direction: GameAction,
    after: GameState,
    outcome: Snapshot,
)
    requires
        is_grid(before.cells),
        before.move_fits(direction),
        before.moves_to(direction, after, outcome),
        after.score == before.score,
    ensures
        !outcome.changed ==> tile_sum(after.cells) == tile_sum(before.cells) + (after.score
            - before.score),
        outcome.changed ==> exists|row: int, col: int, tile: u32|
            {
                &&& #[trigger] spawns(
                    slid(before.cells, direction),
                    row,
                    col,
                    tile,
                    outcome.cells,
                )
                &&& tile_sum(after.cells) == tile_sum(before.cells) + (after.score
                    - before.score) + tile
            },
{
    lemma_move_conserves_mass(before, direction, after, outcome);
}

/// The rows, each read from its other end.
pub open spec fn mirrored<T>(rows: Seq<Seq<T>>) -> Seq<Seq<T>> {
    Seq::new(
        BOARD_SIZE as nat,
        |row: int| Seq::new(BOARD_SIZE as nat, |col: int| rows[row][BOARD_SIZE - 1 - col]),
    )
}

/// The rows from the last to the first.
pub open spec fn flipped<T>(rows: Seq<Seq<T>>) -> Seq<Seq<T>> {
    Seq::new(
        BOARD_SIZE as nat,
        |row: int| Seq::new(BOARD_SIZE as nat, |col: int| rows[BOARD_SIZE - 1 - row][col]),
    )
}

/// Left and right are mirror images of each other: sliding the mirrored grid to the right
/// gives the mirror image of what sliding the grid to the left gives, and earns the same.
pub proof fn lemma_right_mirrors_left(grid: Grid)
    requires
        is_grid(grid),
    ensures
        slid(mirrored(grid), GameAction::Right) == mirrored(slid(grid, GameAction::Left)),
        slide_earned(mirrored(grid), GameAction::Right) == slide_earned(grid, GameAction::Left),
{
    assert forall|line: int| 0 <= line < BOARD_SIZE implies #[trigger] line_tiles(
        mirrored(grid),
        GameAction::Right,
        line,
    ) == line_tiles(grid, GameAction::Left, line) by {
        assert(line_cells(mirrored(grid), GameAction::Right, line) =~= line_cells(
            grid,
            GameAction::Left,
            line,
        ));
    }
    reveal_with_fuel(earned_by_lines, 5);
    assert(line_tiles(mirrored(grid), GameAction::Right, 0) == line_tiles(
        grid,
        GameAction::Left,
        0,
    ));
    assert(line_tiles(mirrored(grid), GameAction::Right, 1) == line_tiles(
        grid,
        GameAction::Left,
        1,
    ));
    assert(line_tiles(mirrored(grid), GameAction::Right, 2) == line_tiles(
        grid,
        GameAction::Left,
        2,
    ));
    assert(line_tiles(mirrored(grid), GameAction::Right, 3) == line_tiles(
        grid,
        GameAction::Left,
        3,
    ));
    assert(slid(mirrored(grid), GameAction::Right) =~~= mirrored(slid(grid, GameAction::Left)));
}

/// Up and down are mirror images of each other: sliding the flipped grid down gives the
/// flipped image of what sliding the grid up gives, and earns the same.
pub proof fn lemma_down_mirrors_up(grid: Grid)
    requires
        is_grid(grid),
    ensures
        slid(flipped(grid), GameAction::Down) == flipped(slid(grid, GameAction::Up)),
        slide_earned(flipped(grid), GameAction::Down) == slide_earned(grid, GameAction::Up),
{
    assert forall|line: int| 0 <= line < BOARD_SIZE implies #[trigger] line_tiles(
        flipped(grid),
        GameAction::Down,
        line,
    ) == line_tiles(grid, GameAction::Up, line) by {
        assert(line_cells(flipped(grid), GameAction::Down, line) =~= line_cells(
            grid,
            GameAction::Up,
            line,
        ));
    }
    reveal_with_fuel(earned_by_lines, 5);
    assert(line_tiles(flipped(grid), GameAction::Down, 0) == line_tiles(grid, GameAction::Up, 0));
    assert(line_tiles(flipped(grid), GameAction::Down, 1) == line_tiles(grid, GameAction::Up, 1));
    assert(line_tiles(flipped(grid), GameAction::Down, 2) == line_tiles(grid, GameAction::Up, 2));
    assert(line_tiles(flipped(grid), GameAction::Down, 3) == line_tiles(grid, GameAction::Up, 3));
    assert(slid(flipped(grid), GameAction::Down) =~~= flipped(slid(grid, GameAction::Up)));
}

/// Whether the flag of a game tells the truth about its board: the game is over exactly if
/// the board is terminal.
pub open spec fn is_truthful(state: GameState) -> bool {
    state.game_over == is_terminal(state.cells)
}

/// A game at its start is not over, and rightly so: its board has empty cells.
pub proof fn lemma_opening_is_truthful(state: GameState)
    requires
        is_opening(state.cells),
        !state.game_over,
    ensures
        is_truthful(state),
{
    let (first, second) = choose|first: (int, int), second: (int, int)| #[trigger]
        tiles_at(state.cells, first, second);
    assert(state.cells[0][0] is None || state.cells[0][1] is None || state.cells[0][2] is None);
}

/// After a move a flag that told the truth still does. So it does in every game that began
/// at a start and was played from there.
pub proof fn lemma_move_keeps_truth(
    before: GameState,
    direction: GameAction,
    after: GameState,
    outcome: Snapshot,
)
    requires
        is_truthful(before),
        before.moves_to(direction, after, outcome),
    ensures
        is_truthful(after),
{
}

/// Whether every tile on the grid shows a power of two, from 2 on.
pub open spec fn is_regular(grid: Grid) -> bool {
    forall|row: int, col: int|
        on_board(row, col) && (#[trigger] grid[row][col]) is Some
            ==> is_tile_value(grid[row][col]->0 as nat)
}

/// A board on which a game starts is regular.
pub proof fn lemma_opening_is_regular(grid: Grid)
    requires
        is_opening(grid),
    ensures
        is_regular(grid),
{
    reveal_with_fuel(is_tile_value, 2);
}

/// A move keeps a regular board regular: merging doubles, and what is spawned is a 2 or a
/// 4.
pub proof fn lemma_move_keeps_regular(
    before: GameState,
    direction: GameAction,
    after: GameState,
    outcome: Snapshot,
)
    requires
        is_grid(before.cells),
        is_regular(before.cells),
        before.move_fits(direction),
        before.moves_to(direction, after, outcome),
    ensures
        is_regular(after.cells),
{
    if !before.game_over {
        let grid = before.cells;
        let slid_cells = slid(grid, direction);
        assert forall|row: int, col: int|
            on_board(row, col) && (#[trigger] slid_cells[row][col]).value
                is Some implies is_tile_value(slid_cells[row][col].value->0 as nat) by {
            let (line, place) = line_of(direction, row, col);
            let cells = line_cells(grid, direction, line);
            let tiles = occupied(cells);
            assert forall|i: int| 0 <= i < tiles.len() implies is_tile_value(
                #[trigger] tiles[i] as nat,
            ) by {
                lemma_occupied_comes_from_cells(cells, i);
                let k = choose|k: int| 0 <= k < cells.len() && cells[k] == Some(tiles[i]);
                let (r, c) = line_cell(direction, line, k);
                assert(grid[r][c] is Some);
            }
            lemma_merged_keeps_tile_values(tiles, BOARD_SIZE as nat);
        }
        reveal_with_fuel(is_tile_value, 2);
        if outcome.changed {
            let (spawn_row, spawn_col, tile) = choose|row: int, col: int, tile: u32| #[trigger]
                spawns(slid_cells, row, col, tile, outcome.cells);
            assert forall|row: int, col: int|
                on_board(row, col) && (#[trigger] after.cells[row][col])
                    is Some implies is_tile_value(after.cells[row][col]->0 as nat) by {
                if row == spawn_row && col == spawn_col {
                } else {
                    assert(outcome.cells[row][col] == slid_cells[row][col]);
                }
            }
        } else {
            assert forall|row: int, col: int|
                on_board(row, col) && (#[trigger] after.cells[row][col])
                    is Some implies is_tile_value(after.cells[row][col]->0 as nat) by {
                assert(outcome.cells[row][col] == slid_cells[row][col]);
            }
        }
    }
}

} // verus!
