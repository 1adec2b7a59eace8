//! The size of the playing area on a character screen.

use crate::board::BOARD_SIZE;
use vstd::prelude::*;

verus! {

/// Width of one cell, in columns.
pub const CELL_WIDTH: u16 = 11;

/// Height of one cell, in lines.
pub const CELL_HEIGHT: u16 = 5;

/// Height of the score line below the board.
pub const SCORE_HEIGHT: u16 = 1;

/// Columns left free beside a cell.
pub const CELL_PADDING_X: u16 = 1;

/// Lines left free above and below the number in a cell.
pub const CELL_PADDING_Y: u16 = 2;

/// Thickness of the border around the board.
pub const BORDER_WIDTH: u16 = 1;

/// Width and height of the whole playing area: the cells with their padding, the border on
/// both sides, and the score line.
pub fn calculate_game_dimensions() -> (size: (u16, u16))
    ensures
        size.0 == BOARD_SIZE * (CELL_WIDTH + CELL_PADDING_X) + CELL_PADDING_X + BORDER_WIDTH * 2,
        size.1 == BOARD_SIZE * CELL_HEIGHT + SCORE_HEIGHT + BORDER_WIDTH * 2,
        size == (51u16, 23u16),
{
    let width = BOARD_SIZE as u16 * (CELL_WIDTH + CELL_PADDING_X) + CELL_PADDING_X + (BORDER_WIDTH
        * 2);
    let height = BOARD_SIZE as u16 * CELL_HEIGHT + SCORE_HEIGHT + (BORDER_WIDTH * 2);
    (width, height)
}

} // verus!
