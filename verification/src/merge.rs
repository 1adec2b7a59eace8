//! Merging along one line: what a run of tiles becomes when it is pushed against an edge.

use crate::game::CellResult;
use vstd::prelude::*;

verus! {

/// Whether the two tiles at the front of a line combine.
pub open spec fn front_pair(tiles: Seq<u32>) -> bool {
    tiles.len() >= 2 && tiles[0] == tiles[1]
}

/// The cells that a run of tiles fills, counted from the edge the tiles are pushed toward,
/// when at most `room` cells are there to be filled.
///
/// The front tile combines with the one behind it exactly if the two are equal; the pair then
/// fills one cell with their sum, and the tile behind the pair is looked at afresh. So no tile
/// takes part in two merges, and a sum never merges again within the same line.
pub open spec fn merged(tiles: Seq<u32>, room: nat) -> Seq<CellResult>
    decreases tiles.len(),
{
    if room == 0 || tiles.len() == 0 {
        Seq::empty()
    } else if front_pair(tiles) {
        seq![CellResult { value: Some((tiles[0] + tiles[1]) as u32), merged: true }] + merged(
            tiles.skip(2),
            (room - 1) as nat,
        )
    } else {
        seq![CellResult { value: Some(tiles[0]), merged: false }] + merged(
            tiles.skip(1),
            (room - 1) as nat,
        )
    }
}

/// The score that merging a run of tiles into at most `room` cells earns: the sum of the
/// tiles that merging produced.
pub open spec fn earned(tiles: Seq<u32>, room: nat) -> nat
    decreases tiles.len(),
{
    if room == 0 || tiles.len() == 0 {
        0
    } else if front_pair(tiles) {
        (tiles[0] + tiles[1]) as nat + earned(tiles.skip(2), (room - 1) as nat)
    } else {
        earned(tiles.skip(1), (room - 1) as nat)
    }
}

/// Whether every tile that merging a run of tiles into at most `room` cells produces fits
/// into a `u32`.
pub open spec fn merges_fit(tiles: Seq<u32>, room: nat) -> bool
    decreases tiles.len(),
{
    if room == 0 || tiles.len() == 0 {
        true
    } else if front_pair(tiles) {
        tiles[0] + tiles[1] <= u32::MAX && merges_fit(tiles.skip(2), (room - 1) as nat)
    } else {
        merges_fit(tiles.skip(1), (room - 1) as nat)
    }
}

/// What a cell holds after `results` were written, one after the other, to the cells at
/// `positions`: the result written last to `(row, col)`, or `previous` if none went there.
pub open spec fn written(
    previous: CellResult,
    positions: Seq<(usize, usize)>,
    results: Seq<CellResult>,
    row: int,
    col: int,
) -> CellResult
    decreases results.len(),
{
    if results.len() == 0 {
        previous
    } else if positions[results.len() - 1].0 == row && positions[results.len() - 1].1 == col {
        results.last()
    } else {
        written(previous, positions, results.drop_last(), row, col)
    }
}

/// Merging never fills more cells than there is room, nor more than there are tiles.
pub proof fn lemma_merged_len(tiles: Seq<u32>, room: nat)
    ensures
        merged(tiles, room).len() <= room,
        merged(tiles, room).len() <= tiles.len(),
    decreases tiles.len(),
{
    if room == 0 || tiles.len() == 0 {
    } else if front_pair(tiles) {
        lemma_merged_len(tiles.skip(2), (room - 1) as nat);
    } else {
        lemma_merged_len(tiles.skip(1), (room - 1) as nat);
    }
}

/// No tile takes part in two merges: every cell that merging fills took one tile or two, so
/// with room for all of them, the tiles are at most twice as many as the cells they fill.
pub proof fn lemma_merged_uses_each_tile_once(tiles: Seq<u32>, room: nat)
    requires
        tiles.len() <= room,
    ensures
        tiles.len() <= 2 * merged(tiles, room).len(),
    decreases tiles.len(),
{
    if room == 0 || tiles.len() == 0 {
    } else if front_pair(tiles) {
        lemma_merged_uses_each_tile_once(tiles.skip(2), (room - 1) as nat);
    } else {
        lemma_merged_uses_each_tile_once(tiles.skip(1), (room - 1) as nat);
    }
}

/// The sum of the tiles in those of the cells that are marked as merged.
pub open spec fn merged_sum(results: Seq<CellResult>) -> nat
    decreases results.len(),
{
    if results.len() == 0 {
        0
    } else {
        (match results[0].value {
            Some(tile) if results[0].merged => tile as nat,
            _ => 0,
        }) + merged_sum(results.skip(1))
    }
}

/// What merging earns is the sum of the tiles that it marks as merged.
pub proof fn lemma_earned_is_merged_sum(tiles: Seq<u32>, room: nat)
    requires
        merges_fit(tiles, room),
    ensures
        earned(tiles, room) == merged_sum(merged(tiles, room)),
    decreases tiles.len(),
{
    if room == 0 || tiles.len() == 0 {
    } else if front_pair(tiles) {
        lemma_earned_is_merged_sum(tiles.skip(2), (room - 1) as nat);
        assert(merged(tiles, room).skip(1) =~= merged(tiles.skip(2), (room - 1) as nat));
    } else {
        lemma_earned_is_merged_sum(tiles.skip(1), (room - 1) as nat);
        assert(merged(tiles, room).skip(1) =~= merged(tiles.skip(1), (room - 1) as nat));
    }
}

/// Whether `value` is one of the numbers that a tile shows in a regular game: 2, 4, 8 and so
/// on, each the double of the one before.
pub open spec fn is_tile_value(value: nat) -> bool
    decreases value,
{
    value == 2 || (value > 2 && value % 2 == 0 && is_tile_value(value / 2))
}

/// Merging regular tiles gives regular tiles: the sum of two equal powers of two is the
/// next power of two.
pub proof fn lemma_merged_keeps_tile_values(tiles: Seq<u32>, room: nat)
    requires
        merges_fit(tiles, room),
        forall|i: int| 0 <= i < tiles.len() ==> is_tile_value(#[trigger] tiles[i] as nat),
    ensures
        forall|i: int|
            0 <= i < merged(tiles, room).len() ==> (#[trigger] merged(tiles, room)[i]).value
                is Some && is_tile_value(merged(tiles, room)[i].value->0 as nat),
    decreases tiles.len(),
{
    if room == 0 || tiles.len() == 0 {
    } else {
        let rest = if front_pair(tiles) {
            tiles.skip(2)
        } else {
            tiles.skip(1)
        };
        assert forall|i: int| 0 <= i < rest.len() implies is_tile_value(
            #[trigger] rest[i] as nat,
        ) by {
            assert(rest[i] == tiles[i + (tiles.len() - rest.len())]);
        }
        lemma_merged_keeps_tile_values(rest, (room - 1) as nat);
        assert(is_tile_value(tiles[0] as nat));
        if front_pair(tiles) {
            assert((tiles[0] + tiles[1]) / 2 == tiles[0]);
        }
        assert forall|i: int| 0 <= i < merged(tiles, room).len() implies (#[trigger] merged(
            tiles,
            room,
        )[i]).value is Some && is_tile_value(merged(tiles, room)[i].value->0 as nat) by {
            if i > 0 {
                assert(merged(tiles, room)[i] == merged(rest, (room - 1) as nat)[i - 1]);
            }
        }
    }
}

/// Tiles of which no two neighbours are equal go to a cell each.
pub proof fn lemma_merged_without_pairs(tiles: Seq<u32>, room: nat)
    requires
        tiles.len() <= room,
        forall|i: int| 0 <= i < tiles.len() - 1 ==> #[trigger] tiles[i] != tiles[i + 1],
    ensures
        merged(tiles, room).len() == tiles.len(),
    decreases tiles.len(),
{
    if room == 0 || tiles.len() == 0 {
    } else {
        assert(tiles.len() >= 2 ==> tiles[0int] != tiles[0int + 1]);
        let rest = tiles.skip(1);
        assert forall|i: int| 0 <= i < rest.len() - 1 implies #[trigger] rest[i] != rest[i
            + 1] by {
            assert(tiles[i + 1] != tiles[i + 1 + 1]);
        }
        lemma_merged_without_pairs(rest, (room - 1) as nat);
    }
}

/// Where two neighbours among the tiles are equal, something merges: the tiles fill fewer
/// cells than they are.
pub proof fn lemma_merged_with_pair(tiles: Seq<u32>, room: nat, i: int)
    requires
        0 <= i < tiles.len() - 1,
        tiles[i] == tiles[i + 1],
    ensures
        merged(tiles, room).len() < tiles.len(),
    decreases tiles.len(),
{
    if room == 0 {
    } else if front_pair(tiles) {
        lemma_merged_len(tiles.skip(2), (room - 1) as nat);
    } else {
        lemma_merged_len(tiles.skip(1), (room - 1) as nat);
        lemma_merged_with_pair(tiles.skip(1), (room - 1) as nat, i - 1);
    }
}

/// Every cell that merging fills holds a tile.
pub proof fn lemma_merged_holds_tiles(tiles: Seq<u32>, room: nat)
    ensures
        forall|i: int|
            0 <= i < merged(tiles, room).len() ==> (#[trigger] merged(tiles, room)[i]).value
                is Some,
    decreases tiles.len(),
{
    if room == 0 || tiles.len() == 0 {
    } else if front_pair(tiles) {
        lemma_merged_holds_tiles(tiles.skip(2), (room - 1) as nat);
    } else {
        lemma_merged_holds_tiles(tiles.skip(1), (room - 1) as nat);
    }
}

/// If merging fills as many cells as there are tiles, nothing merged: every tile went to a
/// cell of its own, and nothing was earned.
pub proof fn lemma_merged_whole(tiles: Seq<u32>, room: nat)
    requires
        merged(tiles, room).len() == tiles.len(),
    ensures
        earned(tiles, room) == 0,
        forall|i: int|
            0 <= i < tiles.len() ==> #[trigger] merged(tiles, room)[i] == (CellResult {
                value: Some(tiles[i]),
                merged: false,
            }),
    decreases tiles.len(),
{
    if room == 0 || tiles.len() == 0 {
    } else if front_pair(tiles) {
        lemma_merged_len(tiles.skip(2), (room - 1) as nat);
    } else {
        lemma_merged_whole(tiles.skip(1), (room - 1) as nat);
        assert forall|i: int| 0 <= i < tiles.len() implies #[trigger] merged(tiles, room)[i] == (
        CellResult { value: Some(tiles[i]), merged: false }) by {
            if i > 0 {
                assert(merged(tiles, room)[i] == merged(tiles.skip(1), (room - 1) as nat)[i - 1]);
            }
        }
    }
}

} // verus!
